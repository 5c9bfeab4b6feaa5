//! Change economics: utility and necessity bands, capacity models, change
//! alternatives, and the guard that keeps held work from starting.
use vstd::prelude::*;

use crate::change::RequirementRef;
use crate::error::{ErrorCode, ZapError};
use crate::ids::{ChangeAlternativeId, DigestValue, EffectId, EvidenceId, ObligationId, ResourceId};
use crate::text::{compare_text, text_lt};

verus! {

/// How much a change is worth, from negligible to critical.
#[derive(Clone, Copy, Debug, PartialEq, Eq, Structural)]
pub enum UtilityBand {
    Negligible,
    Low,
    Moderate,
    High,
    Critical,
}

impl UtilityBand {
    /// The band's place in the order from negligible to critical.
    pub open spec fn rank(self) -> int {
        match self {
            UtilityBand::Negligible => 0,
            UtilityBand::Low => 1,
            UtilityBand::Moderate => 2,
            UtilityBand::High => 3,
            UtilityBand::Critical => 4,
        }
    }

    /// Whether this band is strictly below another.
    pub fn below(self, other: UtilityBand) -> (r: bool)
        ensures
            r == (self.rank() < other.rank()),
    {
        let a: u8 = match self {
            UtilityBand::Negligible => 0,
            UtilityBand::Low => 1,
            UtilityBand::Moderate => 2,
            UtilityBand::High => 3,
            UtilityBand::Critical => 4,
        };
        let b: u8 = match other {
            UtilityBand::Negligible => 0,
            UtilityBand::Low => 1,
            UtilityBand::Moderate => 2,
            UtilityBand::High => 3,
            UtilityBand::Critical => 4,
        };
        a < b
    }
}

/// How confident an assessment is.
#[derive(Clone, Copy, Debug, PartialEq, Eq, Structural)]
pub enum ConfidenceBand {
    Unknown,
    Low,
    Moderate,
    High,
}

/// Why a change is needed.
#[derive(Clone, Copy, Debug, PartialEq, Eq, Structural)]
pub enum NecessityClass {
    MandatoryProblem,
    ObligatorySafeguard,
    OptionalImprovement,
}

/// What kind of alternative a change alternative is.
#[derive(Clone, Copy, Debug, PartialEq, Eq, Structural)]
pub enum AlternativeKind {
    Proposal,
    CheaperAlternative,
    NoOp,
}

/// Whether an alternative can be carried out.
#[derive(Clone, Copy, Debug, PartialEq, Eq, Structural)]
pub enum Feasibility {
    Feasible,
    Infeasible,
    Unknown,
}

/// Each element strictly below the next.
pub open spec fn increasing_obligations(s: Seq<ObligationId>) -> bool {
    forall|i: int| 0 <= i < s.len() - 1 ==> (#[trigger] s[i]).0 < s[i + 1].0
}

pub open spec fn increasing_evidence(s: Seq<EvidenceId>) -> bool {
    forall|i: int| 0 <= i < s.len() - 1 ==> (#[trigger] s[i]).0 < s[i + 1].0
}

pub open spec fn increasing_resources(s: Seq<ResourceId>) -> bool {
    forall|i: int| 0 <= i < s.len() - 1 ==> (#[trigger] s[i]).0 < s[i + 1].0
}

pub open spec fn increasing_effects(s: Seq<EffectId>) -> bool {
    forall|i: int| 0 <= i < s.len() - 1 ==> (#[trigger] s[i]).0 < s[i + 1].0
}

pub open spec fn increasing_texts(s: Seq<Seq<char>>) -> bool {
    forall|i: int| 0 <= i < s.len() - 1 ==> text_lt(#[trigger] s[i], s[i + 1])
}

fn obligations_increase(v: &[ObligationId]) -> (r: bool)
    ensures
        r == increasing_obligations(v@),
{
    let mut k: usize = 1;
    while k < v.len()
        invariant
            1 <= k,
            forall|i: int| 0 <= i < k - 1 && i < v@.len() - 1 ==> (#[trigger] v@[i]).0 < v@[i + 1].0,
        decreases v.len() - k,
    {
        if v[k - 1].0 >= v[k].0 {
            return false;
        }
        k += 1;
    }
    true
}

fn evidence_increases(v: &[EvidenceId]) -> (r: bool)
    ensures
        r == increasing_evidence(v@),
{
    let mut k: usize = 1;
    while k < v.len()
        invariant
            1 <= k,
            forall|i: int| 0 <= i < k - 1 && i < v@.len() - 1 ==> (#[trigger] v@[i]).0 < v@[i + 1].0,
        decreases v.len() - k,
    {
        if v[k - 1].0 >= v[k].0 {
            return false;
        }
        k += 1;
    }
    true
}

fn resources_increase(v: &[ResourceCapacity]) -> (r: bool)
    ensures
        r == increasing_resources(v@.map_values(|c: ResourceCapacity| c.resource_id)),
{
    let ghost ids = v@.map_values(|c: ResourceCapacity| c.resource_id);
    let mut k: usize = 1;
    while k < v.len()
        invariant
            1 <= k,
            ids == v@.map_values(|c: ResourceCapacity| c.resource_id),
            forall|i: int| 0 <= i < k - 1 && i < ids.len() - 1 ==> (#[trigger] ids[i]).0 < ids[i + 1].0,
        decreases v.len() - k,
    {
        if v[k - 1].resource_id.0 >= v[k].resource_id.0 {
            assert(ids[k - 1] == v@[k - 1].resource_id);
            return false;
        }
        k += 1;
    }
    true
}

fn requirements_increase(v: &[RequirementRef]) -> (r: bool)
    ensures
        r == increasing_texts(v@.map_values(|q: RequirementRef| q@)),
{
    let ghost texts = v@.map_values(|q: RequirementRef| q@);
    let mut k: usize = 1;
    while k < v.len()
        invariant
            1 <= k,
            texts == v@.map_values(|q: RequirementRef| q@),
            forall|i: int| 0 <= i < k - 1 && i < texts.len() - 1 ==> text_lt(#[trigger] texts[i], texts[i + 1]),
        decreases v.len() - k,
    {
        if compare_text(v[k - 1].as_str(), v[k].as_str()) != -1 {
            assert(texts[k - 1] == v@[k - 1]@ && texts[k as int] == v@[k as int]@);
            return false;
        }
        k += 1;
    }
    true
}

fn strings_increase(v: &[String]) -> (r: bool)
    ensures
        r == increasing_texts(v@.map_values(|q: String| q@)),
{
    let ghost texts = v@.map_values(|q: String| q@);
    let mut k: usize = 1;
    while k < v.len()
        invariant
            1 <= k,
            texts == v@.map_values(|q: String| q@),
            forall|i: int| 0 <= i < k - 1 && i < texts.len() - 1 ==> text_lt(#[trigger] texts[i], texts[i + 1]),
        decreases v.len() - k,
    {
        if compare_text(v[k - 1].as_str(), v[k].as_str()) != -1 {
            assert(texts[k - 1] == v@[k - 1]@ && texts[k as int] == v@[k as int]@);
            return false;
        }
        k += 1;
    }
    true
}

/// Why a change is needed, and on what evidence.
pub struct ChangeNecessity {
    pub class: NecessityClass,
    pub obligation_ids: Vec<ObligationId>,
    pub constraint_refs: Vec<RequirementRef>,
    pub problem: String,
    pub basis: String,
    pub evidence_refs: Vec<EvidenceId>,
}

/// A necessity lists its obligations, constraints and evidence in strictly
/// increasing order; unless the change is optional it names at least one
/// obligation or constraint and at least one piece of evidence.
pub open spec fn necessity_valid(n: ChangeNecessity) -> bool {
    &&& increasing_obligations(n.obligation_ids@)
    &&& increasing_texts(n.constraint_refs@.map_values(|q: RequirementRef| q@))
    &&& increasing_evidence(n.evidence_refs@)
    &&& (n.class != NecessityClass::OptionalImprovement ==> (n.obligation_ids@.len() > 0 || n.constraint_refs@.len() > 0)
        && n.evidence_refs@.len() > 0)
}

impl ChangeNecessity {
    pub fn validate(&self) -> (r: Result<(), ZapError>)
        ensures
            r is Ok <==> necessity_valid(*self),
            r matches Err(e) ==> e.code == ErrorCode::InvalidValue,
    {
        let optional = matches!(self.class, NecessityClass::OptionalImprovement);
        if !obligations_increase(self.obligation_ids.as_slice()) || !requirements_increase(self.constraint_refs.as_slice())
            || !evidence_increases(self.evidence_refs.as_slice()) || (!optional && (self.obligation_ids.len() == 0
            && self.constraint_refs.len() == 0 || self.evidence_refs.len() == 0))
        {
            return Err(ZapError::new(ErrorCode::InvalidValue));
        }
        Ok(())
    }
}

/// One class of executor and how much of it the team has.
pub struct ExecutorCapacity {
    pub class_id: String,
    pub capability_ids: Vec<String>,
    pub nominal_capacity: u32,
}

/// One shared resource and how much of it the team has.
#[derive(Clone, Copy, Debug, PartialEq, Eq, Structural)]
pub struct ResourceCapacity {
    pub resource_id: ResourceId,
    pub nominal_capacity: u32,
}

/// The team's capacity that economics plans against.
pub struct TeamCapacityModel {
    pub model_id: String,
    pub profile_digest: DigestValue,
    pub executor_classes: Vec<ExecutorCapacity>,
    pub nominal_parallelism: u32,
    pub resource_capacities: Vec<ResourceCapacity>,
    pub scheduling_assumptions: Vec<String>,
    pub evidence_refs: Vec<EvidenceId>,
}

pub open spec fn executor_valid(e: ExecutorCapacity) -> bool {
    e.nominal_capacity > 0 && increasing_texts(e.capability_ids@.map_values(|q: String| q@))
}

/// A capacity model has positive parallelism and at least one executor class;
/// executor classes, resources, assumptions and evidence are strictly
/// increasing; every executor class and resource has positive capacity and its
/// capabilities strictly increase.
pub open spec fn capacity_valid(m: TeamCapacityModel) -> bool {
    &&& m.nominal_parallelism > 0
    &&& m.executor_classes@.len() > 0
    &&& increasing_texts(m.executor_classes@.map_values(|e: ExecutorCapacity| e.class_id@))
    &&& increasing_resources(m.resource_capacities@.map_values(|c: ResourceCapacity| c.resource_id))
    &&& increasing_texts(m.scheduling_assumptions@.map_values(|q: String| q@))
    &&& increasing_evidence(m.evidence_refs@)
    &&& forall|i: int| 0 <= i < m.executor_classes@.len() ==> executor_valid(#[trigger] m.executor_classes@[i])
    &&& forall|i: int| 0 <= i < m.resource_capacities@.len() ==> (#[trigger] m.resource_capacities@[i]).nominal_capacity > 0
}

impl TeamCapacityModel {
    pub fn validate(&self) -> (r: Result<(), ZapError>)
        ensures
            r is Ok <==> capacity_valid(*self),
            r matches Err(e) ==> e.code == ErrorCode::InvalidValue,
    {
        if self.nominal_parallelism == 0 || self.executor_classes.len() == 0 {
            return Err(ZapError::new(ErrorCode::InvalidValue));
        }
        let ghost classes = self.executor_classes@.map_values(|e: ExecutorCapacity| e.class_id@);
        let mut k: usize = 0;
        while k < self.executor_classes.len()
            invariant
                k <= self.executor_classes.len(),
                classes == self.executor_classes@.map_values(|e: ExecutorCapacity| e.class_id@),
                forall|i: int| 0 <= i < k ==> executor_valid(#[trigger] self.executor_classes@[i]),
                forall|i: int| 0 <= i < k - 1 ==> text_lt(#[trigger] classes[i], classes[i + 1]),
            decreases self.executor_classes.len() - k,
        {
            let row = &self.executor_classes[k];
            if k > 0 && compare_text(self.executor_classes[k - 1].class_id.as_str(), row.class_id.as_str()) != -1 {
                assert(!increasing_texts(classes)) by {
                    assert(classes[k - 1] == self.executor_classes@[k - 1].class_id@);
                    assert(classes[k as int] == row.class_id@);
                }
                return Err(ZapError::new(ErrorCode::InvalidValue));
            }
            if row.nominal_capacity == 0 || !strings_increase(row.capability_ids.as_slice()) {
                assert(!executor_valid(self.executor_classes@[k as int]));
                return Err(ZapError::new(ErrorCode::InvalidValue));
            }
            k += 1;
        }
        if !resources_increase(self.resource_capacities.as_slice()) || !strings_increase(self.scheduling_assumptions.as_slice())
            || !evidence_increases(self.evidence_refs.as_slice())
        {
            return Err(ZapError::new(ErrorCode::InvalidValue));
        }
        let mut k: usize = 0;
        while k < self.resource_capacities.len()
            invariant
                k <= self.resource_capacities.len(),
                forall|i: int| 0 <= i < k ==> (#[trigger] self.resource_capacities@[i]).nominal_capacity > 0,
            decreases self.resource_capacities.len() - k,
        {
            if self.resource_capacities[k].nominal_capacity == 0 {
                return Err(ZapError::new(ErrorCode::InvalidValue));
            }
            k += 1;
        }
        Ok(())
    }
}

/// One effect of a change alternative, as its structure is checked.
pub struct ChangeEffect {
    pub effect_id: EffectId,
    pub index: u32,
    pub predecessors: Vec<EffectId>,
}

/// A change alternative, as its structure is checked.
pub struct ChangeAlternative {
    pub alternative_id: ChangeAlternativeId,
    pub kind: AlternativeKind,
    pub solves_mandatory_problem: bool,
    pub preserved_obligations: Vec<ObligationId>,
    pub sacrificed_obligations: Vec<ObligationId>,
    pub feasibility: Feasibility,
    pub effects: Vec<ChangeEffect>,
    pub has_no_op_basis_request: bool,
    pub evidence_refs: Vec<EvidenceId>,
}

/// The effect ids of the alternative's effects, in order.
pub open spec fn effect_ids(effects: Seq<ChangeEffect>) -> Seq<EffectId> {
    effects.map_values(|e: ChangeEffect| e.effect_id)
}

/// Effect `i` sits at its own index, its id is new, and each of its
/// predecessors is an earlier effect.
pub open spec fn effect_well_placed(effects: Seq<ChangeEffect>, i: int) -> bool {
    &&& effects[i].index == i
    &&& !effect_ids(effects).take(i).contains(effects[i].effect_id)
    &&& forall|k: int| 0 <= k < effects[i].predecessors@.len()
        ==> effect_ids(effects).take(i).contains(#[trigger] effects[i].predecessors@[k])
}

/// An alternative's obligations and evidence strictly increase, its effects are
/// well placed, a no-op has no effects and a no-op basis request while any
/// other kind has no such request, and a feasible change has effects.
pub open spec fn alternative_structure_valid(a: ChangeAlternative) -> bool {
    &&& increasing_obligations(a.preserved_obligations@)
    &&& increasing_obligations(a.sacrificed_obligations@)
    &&& increasing_evidence(a.evidence_refs@)
    &&& forall|i: int| 0 <= i < a.effects@.len() ==> effect_well_placed(a.effects@, i)
    &&& (a.kind == AlternativeKind::NoOp ==> a.effects@.len() == 0 && a.has_no_op_basis_request)
    &&& (a.kind != AlternativeKind::NoOp ==> !a.has_no_op_basis_request)
    &&& (a.feasibility == Feasibility::Feasible && a.kind != AlternativeKind::NoOp ==> a.effects@.len() > 0)
}

fn effect_among(effects: &[ChangeEffect], upto: usize, id: EffectId) -> (r: bool)
    requires
        upto <= effects@.len(),
    ensures
        r == effect_ids(effects@).take(upto as int).contains(id),
{
    let mut k: usize = 0;
    while k < upto
        invariant
            k <= upto <= effects@.len(),
            forall|m: int| 0 <= m < k ==> effects@[m].effect_id != id,
        decreases upto - k,
    {
        if effects[k].effect_id.0 == id.0 {
            assert(effect_ids(effects@).take(upto as int)[k as int] == id);
            return true;
        }
        k += 1;
    }
    proof {
        assert forall|m: int| 0 <= m < upto implies effect_ids(effects@).take(upto as int)[m] != id by {
            assert(effect_ids(effects@).take(upto as int)[m] == effects@[m].effect_id);
        }
    }
    false
}

impl ChangeAlternative {
    /// Checks the alternative's structure.
    pub fn validate_structure(&self) -> (r: Result<(), ZapError>)
        ensures
            r is Ok <==> alternative_structure_valid(*self),
            r matches Err(e) ==> e.code == ErrorCode::InvalidValue,
    {
        if !obligations_increase(self.preserved_obligations.as_slice()) || !obligations_increase(self.sacrificed_obligations.as_slice())
            || !evidence_increases(self.evidence_refs.as_slice())
        {
            return Err(ZapError::new(ErrorCode::InvalidValue));
        }
        let effects = self.effects.as_slice();
        let mut i: usize = 0;
        while i < effects.len()
            invariant
                i <= effects@.len(),
                effects@ == self.effects@,
                forall|m: int| 0 <= m < i ==> effect_well_placed(effects@, m),
            decreases effects.len() - i,
        {
            let effect = &effects[i];
            if effect.index as usize != i || effect_among(effects, i, effect.effect_id) {
                assert(!effect_well_placed(self.effects@, i as int));
                return Err(ZapError::new(ErrorCode::InvalidValue));
            }
            let mut k: usize = 0;
            while k < effect.predecessors.len()
                invariant
                    i < effects@.len(),
                    effects@ == self.effects@,
                    effect == &effects@[i as int],
                    effect.index == i,
                    !effect_ids(effects@).take(i as int).contains(effect.effect_id),
                    forall|m: int| 0 <= m < i ==> effect_well_placed(effects@, m),
                    k <= effect.predecessors@.len(),
                    forall|m: int| 0 <= m < k ==> effect_ids(effects@).take(i as int).contains(#[trigger] effect.predecessors@[m]),
                decreases effect.predecessors.len() - k,
            {
                if !effect_among(effects, i, effect.predecessors[k]) {
                    assert(!effect_well_placed(self.effects@, i as int));
                    return Err(ZapError::new(ErrorCode::InvalidValue));
                }
                k += 1;
            }
            i += 1;
        }
        let no_op = matches!(self.kind, AlternativeKind::NoOp);
        if no_op && (self.effects.len() > 0 || !self.has_no_op_basis_request) || !no_op && self.has_no_op_basis_request
            || matches!(self.feasibility, Feasibility::Feasible) && !no_op && self.effects.len() == 0
        {
            return Err(ZapError::new(ErrorCode::InvalidValue));
        }
        Ok(())
    }
}

} // verus!
