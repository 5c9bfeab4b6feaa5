use zap::change::RequirementRef;
use zap::economics::{
    AlternativeKind, ChangeAlternative, ChangeEffect, ChangeNecessity, ExecutorCapacity, Feasibility, NecessityClass,
    ResourceCapacity, TeamCapacityModel, UtilityBand,
};
use zap::error::ErrorCode;
use zap::ids::{ChangeAlternativeId, DigestValue, EffectId, EvidenceId, ObligationId, ResourceId};

fn necessity(class: NecessityClass, obligations: Vec<u64>, evidence: Vec<u64>) -> ChangeNecessity {
    ChangeNecessity {
        class,
        obligation_ids: obligations.into_iter().map(ObligationId).collect(),
        constraint_refs: vec![],
        problem: "p".to_string(),
        basis: "b".to_string(),
        evidence_refs: evidence.into_iter().map(EvidenceId).collect(),
    }
}

#[test]
fn utility_bands_are_ordered() {
    assert!(UtilityBand::Negligible.below(UtilityBand::Low));
    assert!(UtilityBand::High.below(UtilityBand::Critical));
    assert!(!UtilityBand::Critical.below(UtilityBand::Critical));
    assert!(!UtilityBand::Moderate.below(UtilityBand::Low));
}

#[test]
fn mandatory_necessity_needs_obligations_and_evidence() {
    assert!(necessity(NecessityClass::MandatoryProblem, vec![1, 2], vec![3]).validate().is_ok());
    assert_eq!(
        necessity(NecessityClass::MandatoryProblem, vec![], vec![3]).validate().unwrap_err().code,
        ErrorCode::InvalidValue
    );
    assert!(necessity(NecessityClass::ObligatorySafeguard, vec![1], vec![]).validate().is_err());
    assert!(necessity(NecessityClass::OptionalImprovement, vec![], vec![]).validate().is_ok());
    assert!(necessity(NecessityClass::OptionalImprovement, vec![2, 1], vec![]).validate().is_err());
    let mut constrained = necessity(NecessityClass::MandatoryProblem, vec![], vec![3]);
    constrained.constraint_refs = vec![RequirementRef::new("a"), RequirementRef::new("b")];
    assert!(constrained.validate().is_ok());
    constrained.constraint_refs = vec![RequirementRef::new("b"), RequirementRef::new("a")];
    assert!(constrained.validate().is_err());
}

fn capacity() -> TeamCapacityModel {
    TeamCapacityModel {
        model_id: "team".to_string(),
        profile_digest: DigestValue(1),
        executor_classes: vec![
            ExecutorCapacity { class_id: "junior".to_string(), capability_ids: vec!["a".to_string(), "b".to_string()], nominal_capacity: 2 },
            ExecutorCapacity { class_id: "senior".to_string(), capability_ids: vec![], nominal_capacity: 1 },
        ],
        nominal_parallelism: 3,
        resource_capacities: vec![ResourceCapacity { resource_id: ResourceId(1), nominal_capacity: 4 }],
        scheduling_assumptions: vec!["x".to_string()],
        evidence_refs: vec![EvidenceId(1)],
    }
}

#[test]
fn capacity_model_validation() {
    assert!(capacity().validate().is_ok());
    let mut m = capacity();
    m.nominal_parallelism = 0;
    assert_eq!(m.validate().unwrap_err().code, ErrorCode::InvalidValue);
    let mut m = capacity();
    m.executor_classes.swap(0, 1);
    assert!(m.validate().is_err());
    let mut m = capacity();
    m.executor_classes[1].nominal_capacity = 0;
    assert!(m.validate().is_err());
    let mut m = capacity();
    m.resource_capacities[0].nominal_capacity = 0;
    assert!(m.validate().is_err());
    let mut m = capacity();
    m.executor_classes.clear();
    assert!(m.validate().is_err());
}

fn alternative(kind: AlternativeKind, effects: Vec<ChangeEffect>, no_op_basis: bool) -> ChangeAlternative {
    ChangeAlternative {
        alternative_id: ChangeAlternativeId(1),
        kind,
        solves_mandatory_problem: true,
        preserved_obligations: vec![],
        sacrificed_obligations: vec![],
        feasibility: Feasibility::Feasible,
        effects,
        has_no_op_basis_request: no_op_basis,
        evidence_refs: vec![],
    }
}

#[test]
fn alternative_effects_are_placed_in_order() {
    let effects = vec![
        ChangeEffect { effect_id: EffectId(7), index: 0, predecessors: vec![] },
        ChangeEffect { effect_id: EffectId(3), index: 1, predecessors: vec![EffectId(7)] },
    ];
    assert!(alternative(AlternativeKind::Proposal, effects, false).validate_structure().is_ok());
    let forward = vec![
        ChangeEffect { effect_id: EffectId(7), index: 0, predecessors: vec![EffectId(3)] },
        ChangeEffect { effect_id: EffectId(3), index: 1, predecessors: vec![] },
    ];
    assert!(alternative(AlternativeKind::Proposal, forward, false).validate_structure().is_err());
    let misplaced = vec![ChangeEffect { effect_id: EffectId(7), index: 1, predecessors: vec![] }];
    assert!(alternative(AlternativeKind::Proposal, misplaced, false).validate_structure().is_err());
    let repeated = vec![
        ChangeEffect { effect_id: EffectId(7), index: 0, predecessors: vec![] },
        ChangeEffect { effect_id: EffectId(7), index: 1, predecessors: vec![] },
    ];
    assert!(alternative(AlternativeKind::Proposal, repeated, false).validate_structure().is_err());
}

#[test]
fn no_op_and_feasibility_rules() {
    assert!(alternative(AlternativeKind::NoOp, vec![], true).validate_structure().is_ok());
    assert!(alternative(AlternativeKind::NoOp, vec![], false).validate_structure().is_err());
    assert!(alternative(AlternativeKind::CheaperAlternative, vec![], true).validate_structure().is_err());
    assert_eq!(
        alternative(AlternativeKind::Proposal, vec![], false).validate_structure().unwrap_err().code,
        ErrorCode::InvalidValue
    );
    let mut infeasible = alternative(AlternativeKind::Proposal, vec![], false);
    infeasible.feasibility = Feasibility::Infeasible;
    assert!(infeasible.validate_structure().is_ok());
}
