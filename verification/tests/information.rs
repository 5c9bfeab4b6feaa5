use zap::error::ErrorCode;
use zap::ids::{DecisionId, DigestValue, EvidenceId, InformationOpportunityId, InformationSelectionId, SourceId, WorkId};
use zap::packets::WorkType;
use zap::information::{
    benefits_dominate, costs_dominate, costs_strictly_dominate, decisive_superset, equivalent_decision, interval_dominates,
    recommend_opportunity, sum_intervals, CostUnknown, CurrentProofRow, CurrentProofSet, DecisionBenefit, HoursInterval,
    HoursMicros, InformationCostEstimate, InformationCosts, InformationDecisionBasis, InformationOpportunityContent,
    InformationOpportunityRecord, InformationPossibility, InformationProofValidationCost, InformationRecommendationKind,
    InformationSelectionRecord, InformationSourceBinding, InformationStopEnforcement, InformationStopRule, ObservationPower,
    OpportunityFreshness, SourceApplicabilityStatus, SourceCapture,
};

fn hours(low: u64, high: Option<u64>) -> HoursInterval {
    HoursInterval { low: HoursMicros(low), high: high.map(HoursMicros) }
}

fn estimate(low: u64, high: u64) -> InformationCostEstimate {
    InformationCostEstimate { agent_hours: hours(low, Some(high)), elapsed: hours(low, Some(high)), basis: "b".to_string() }
}

fn costs(low: u64, high: u64) -> InformationCosts {
    InformationCosts {
        acquisition: estimate(low, high),
        verification: estimate(0, 0),
        coordination: estimate(0, 0),
        delay: hours(0, Some(0)),
        unknowns: vec![],
    }
}

fn content(cost_low: u64, cost_high: u64, benefit: HoursInterval, power: ObservationPower) -> InformationOpportunityContent {
    InformationOpportunityContent {
        name: "probe".to_string(),
        decision_id: DecisionId(1),
        decision_basis: InformationDecisionBasis::OwnerDecision { decision_id: DecisionId(1), expected_revision: 2 },
        possibilities: vec![
            InformationPossibility { possibility_id: "a".to_string(), description: "A".to_string() },
            InformationPossibility { possibility_id: "b".to_string(), description: "B".to_string() },
        ],
        unknown_condition: None,
        observation_sought: "which".to_string(),
        observation_power: power,
        sources: vec![InformationSourceBinding {
            capture: SourceCapture { source_id: SourceId(3), digest: DigestValue(30) },
            applicability: SourceApplicabilityStatus::Applicable,
            applicability_basis: DigestValue(31),
        }],
        regions: vec![],
        horizons: vec![],
        costs: costs(cost_low, cost_high),
        benefit: DecisionBenefit::AvoidedAgentHours { range: benefit, basis: "saves".to_string() },
        stop_rule: InformationStopRule {
            stop_when_observed: true,
            maximum_attempts: Some(2),
            maximum_agent_hours: None,
            maximum_elapsed: None,
            stop_on_source_drift: false,
            enforcement: InformationStopEnforcement::DecisionGuidance,
            explanation: "stop".to_string(),
        },
        satisfying_evidence_ids: vec![],
    }
}

fn record(id: u64, content: InformationOpportunityContent) -> InformationOpportunityRecord {
    InformationOpportunityRecord {
        opportunity_id: InformationOpportunityId(id),
        content,
        revision: 5,
        semantic_fingerprint: DigestValue(50),
        basis_fingerprint: DigestValue(51),
        selection_id: None,
    }
}

fn decisive() -> ObservationPower {
    ObservationPower::Decisive { distinguishes: vec!["a".to_string(), "b".to_string()] }
}

#[test]
fn intervals_refuse_an_inverted_bound() {
    assert!(HoursInterval::new(HoursMicros(2), Some(HoursMicros(3))).is_ok());
    assert!(HoursInterval::new(HoursMicros(2), None).is_ok());
    assert_eq!(HoursInterval::new(HoursMicros(3), Some(HoursMicros(2))).unwrap_err().code, ErrorCode::InvalidValue);
    assert_eq!(HoursMicros(u64::MAX).checked_add(HoursMicros(1)).unwrap_err().code, ErrorCode::InvalidValue);
    assert_eq!(HoursMicros(2).checked_add(HoursMicros(3)).unwrap(), HoursMicros(5));
}

#[test]
fn interval_sums_add_both_bounds() {
    assert_eq!(sum_intervals(&[hours(1, Some(2)), hours(3, Some(5))]).unwrap(), hours(4, Some(7)));
    assert_eq!(sum_intervals(&[hours(1, Some(2)), hours(3, None)]).unwrap(), hours(4, None));
    assert_eq!(sum_intervals(&[]).unwrap(), hours(0, Some(0)));
    assert_eq!(sum_intervals(&[hours(u64::MAX, None), hours(1, None)]).unwrap_err().code, ErrorCode::InvalidValue);
    assert_eq!(sum_intervals(&[hours(0, Some(u64::MAX)), hours(0, Some(1))]).unwrap_err().code, ErrorCode::InvalidValue);
}

#[test]
fn cost_totals_include_the_delay_only_when_elapsed() {
    let mut c = costs(2, 3);
    c.delay = hours(10, Some(20));
    assert_eq!(c.agent_hours().unwrap(), hours(2, Some(3)));
    assert_eq!(c.elapsed().unwrap(), hours(12, Some(23)));
    assert!(c.validate().is_ok());
}

#[test]
fn cost_unknowns_must_be_consistent_and_distinct() {
    let unknown = |id: &str, material: bool| CostUnknown {
        unknown_id: id.to_string(),
        question: "q".to_string(),
        resolution_action: "r".to_string(),
        lower_bound: HoursMicros(1),
        upper_bound: Some(HoursMicros(2)),
        material,
    };
    let mut c = costs(1, 2);
    c.unknowns = vec![unknown("u1", false), unknown("u2", true)];
    assert!(c.validate().is_ok());
    assert!(c.materially_unknown());
    c.unknowns = vec![unknown("u1", false), unknown("u1", false)];
    assert_eq!(c.validate().unwrap_err().code, ErrorCode::InvalidValue);
    assert!(!c.materially_unknown());
}

#[test]
fn content_validation_checks_decision_shape_and_power() {
    let good = content(1, 2, hours(5, Some(6)), decisive());
    assert!(good.validate().is_ok());
    let mut wrong_decision = content(1, 2, hours(5, Some(6)), decisive());
    wrong_decision.decision_basis = InformationDecisionBasis::OwnerDecision { decision_id: DecisionId(9), expected_revision: 1 };
    assert!(wrong_decision.validate().is_err());
    let mut unsorted = content(1, 2, hours(5, Some(6)), ObservationPower::Decisive { distinguishes: vec!["b".to_string(), "a".to_string()] });
    assert!(unsorted.validate().is_err());
    unsorted.observation_power = ObservationPower::Decisive { distinguishes: vec!["a".to_string(), "c".to_string()] };
    assert!(unsorted.validate().is_err());
    let mut no_sources = content(1, 2, hours(5, Some(6)), ObservationPower::Informative);
    no_sources.sources.clear();
    assert_eq!(no_sources.validate().unwrap_err().code, ErrorCode::InvalidValue);
    assert_eq!(good.source_ids(), vec![SourceId(3)]);
}

#[test]
fn a_benefit_above_every_cost_is_worthwhile() {
    let opp = record(1, content(1, 2, hours(5, Some(6)), ObservationPower::Informative));
    let rec = recommend_opportunity(&opp, &[], OpportunityFreshness::Current, &[], None, None).unwrap();
    assert_eq!(rec.kind, InformationRecommendationKind::Worthwhile);
    assert_eq!(rec.opportunity_revision, 5);
    assert_eq!(rec.basis_evaluation_cost.exact_source_records, 1);
    assert_eq!(rec.proof_validation_cost, InformationProofValidationCost::NotUsed);
}

#[test]
fn a_benefit_below_every_cost_is_not_worthwhile() {
    let opp = record(1, content(5, 9, hours(1, Some(5)), ObservationPower::Informative));
    let rec = recommend_opportunity(&opp, &[], OpportunityFreshness::Current, &[], None, None).unwrap();
    assert_eq!(rec.kind, InformationRecommendationKind::NotWorthwhile);
}

#[test]
fn overlapping_ranges_are_unknown() {
    let opp = record(1, content(2, 8, hours(3, Some(9)), ObservationPower::Informative));
    let rec = recommend_opportunity(&opp, &[], OpportunityFreshness::Current, &[], None, None).unwrap();
    assert_eq!(rec.kind, InformationRecommendationKind::Unknown);
}

#[test]
fn a_stale_opportunity_needs_reconsideration() {
    let opp = record(1, content(1, 2, hours(5, Some(6)), ObservationPower::Informative));
    let rec = recommend_opportunity(&opp, &[], OpportunityFreshness::Stale, &[], None, None).unwrap();
    assert_eq!(rec.kind, InformationRecommendationKind::Unknown);
}

#[test]
fn a_matching_selection_is_already_selected() {
    let opp = record(1, content(1, 2, hours(5, Some(6)), ObservationPower::Informative));
    let selection = InformationSelectionRecord {
        selection_id: InformationSelectionId(3),
        revision: 1,
        opportunity_id: InformationOpportunityId(1),
        work_type: WorkType::Evidence,
        opportunity_revision: 5,
        opportunity_fingerprint: DigestValue(50),
        basis_fingerprint: DigestValue(51),
        candidate_work_id: WorkId(77),
    };
    let rec = recommend_opportunity(&opp, &[], OpportunityFreshness::Current, &[], Some(&selection), None).unwrap();
    assert_eq!(rec.kind, InformationRecommendationKind::AlreadySelected);
    assert_eq!(rec.reusable_work_id, Some(WorkId(77)));
}

#[test]
fn a_cheaper_decisive_peer_is_preferred() {
    let opp = record(1, content(5, 6, hours(1, Some(9)), ObservationPower::Informative));
    let peer = record(2, content(1, 2, hours(1, Some(9)), decisive()));
    assert!(decisive_superset(&peer, &opp));
    assert!(equivalent_decision(&peer, &opp));
    assert_eq!(costs_strictly_dominate(&peer, &opp).unwrap(), true);
    let rec = recommend_opportunity(&opp, &[peer], OpportunityFreshness::Current, &[OpportunityFreshness::Current], None, None)
        .unwrap();
    assert_eq!(rec.kind, InformationRecommendationKind::CheaperDecisive);
    assert_eq!(rec.preferred_opportunity_id, Some(InformationOpportunityId(2)));
}

#[test]
fn a_stale_peer_is_ignored() {
    let opp = record(1, content(5, 6, hours(1, Some(9)), ObservationPower::Informative));
    let peer = record(2, content(1, 2, hours(1, Some(9)), decisive()));
    let rec = recommend_opportunity(&opp, &[peer], OpportunityFreshness::Current, &[OpportunityFreshness::Stale], None, None)
        .unwrap();
    assert_eq!(rec.kind, InformationRecommendationKind::Unknown);
}

#[test]
fn a_dominating_peer_dominates() {
    let opp = record(1, content(5, 6, hours(1, Some(3)), ObservationPower::Informative));
    let peer = record(2, content(5, 6, hours(4, Some(9)), ObservationPower::Informative));
    assert_eq!(benefits_dominate(&peer, &opp).unwrap(), true);
    assert_eq!(costs_dominate(&peer, &opp).unwrap(), false);
    let cheap_peer = record(3, content(1, 5, hours(4, Some(9)), ObservationPower::Informative));
    assert_eq!(costs_dominate(&cheap_peer, &opp).unwrap(), true);
    let rec = recommend_opportunity(&opp, &[cheap_peer], OpportunityFreshness::Current, &[OpportunityFreshness::Current], None, None)
        .unwrap();
    assert_eq!(rec.kind, InformationRecommendationKind::Dominated);
    assert_eq!(rec.preferred_opportunity_id, Some(InformationOpportunityId(3)));
}

#[test]
fn current_proof_satisfies_the_opportunity() {
    let mut c = content(1, 2, hours(5, Some(6)), ObservationPower::Informative);
    c.satisfying_evidence_ids = vec![EvidenceId(8), EvidenceId(9)];
    let opp = record(1, c);
    let proof = CurrentProofSet {
        rows: vec![CurrentProofRow {
            evidence_id: EvidenceId(9),
            source_captures: vec![SourceCapture { source_id: SourceId(3), digest: DigestValue(30) }],
        }],
    };
    let rec = recommend_opportunity(&opp, &[], OpportunityFreshness::Current, &[], None, Some(&proof)).unwrap();
    assert_eq!(rec.kind, InformationRecommendationKind::AlreadySatisfied);
    assert_eq!(rec.reusable_evidence_ids, vec![EvidenceId(9)]);
    assert_eq!(rec.proof_validation_cost, InformationProofValidationCost::StoreWideCurrentProofContextScan { requested_evidence: 2 });
    assert_eq!(
        recommend_opportunity(&opp, &[], OpportunityFreshness::Current, &[], None, None).unwrap_err().code,
        ErrorCode::InternalInvariant
    );
}

#[test]
fn proof_over_another_capture_does_not_satisfy() {
    let mut c = content(1, 2, hours(5, Some(6)), ObservationPower::Informative);
    c.satisfying_evidence_ids = vec![EvidenceId(9)];
    let opp = record(1, c);
    let proof = CurrentProofSet {
        rows: vec![CurrentProofRow {
            evidence_id: EvidenceId(9),
            source_captures: vec![SourceCapture { source_id: SourceId(3), digest: DigestValue(99) }],
        }],
    };
    let rec = recommend_opportunity(&opp, &[], OpportunityFreshness::Current, &[], None, Some(&proof)).unwrap();
    assert_eq!(rec.kind, InformationRecommendationKind::Worthwhile);
}

#[test]
fn interval_dominance_needs_a_finite_bound() {
    assert!(interval_dominates(hours(1, Some(2)), hours(2, None)));
    assert!(!interval_dominates(hours(1, None), hours(5, None)));
    assert!(!interval_dominates(hours(1, Some(3)), hours(2, None)));
}

#[test]
fn inapplicable_sources_make_the_recommendation_unknown() {
    let mut c = content(1, 2, hours(5, Some(6)), ObservationPower::Informative);
    c.sources[0].applicability = SourceApplicabilityStatus::Unassessed;
    let opp = record(1, c);
    let rec = recommend_opportunity(&opp, &[], OpportunityFreshness::Current, &[], None, None).unwrap();
    assert_eq!(rec.kind, InformationRecommendationKind::Unknown);
}
