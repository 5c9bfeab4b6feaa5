//! Information opportunities: bounded hour intervals, the validation of an
//! opportunity's costs, benefit and stop rule, and the recommendation that
//! compares an opportunity with its current peers.
use vstd::prelude::*;

use crate::error::{ErrorCode, ZapError};
use crate::ids::{DecisionId, DigestValue, EvidenceId, ForkId, InformationOpportunityId, InformationSelectionId, OutcomeId, RegionId, SourceId, StrategicRevisionId, WorkId};
use crate::packets::WorkType;
use crate::text::{blank, blank_text, compare_text, text_lt};

verus! {

pub const MAX_ITEMS: usize = 128;

/// A non-negative duration in micro-hours.
#[derive(Clone, Copy, Debug, PartialEq, Eq, Structural)]
pub struct HoursMicros(pub u64);

impl HoursMicros {
    pub fn zero() -> (r: HoursMicros)
        ensures
            r.0 == 0,
    {
        HoursMicros(0)
    }

    /// Adds two durations, refusing an overflow.
    pub fn checked_add(self, other: HoursMicros) -> (r: Result<HoursMicros, ZapError>)
        ensures
            r is Ok <==> self.0 + other.0 <= u64::MAX,
            r matches Ok(v) ==> v.0 == self.0 + other.0,
            r matches Err(e) ==> e.code == ErrorCode::InvalidValue,
    {
        match self.0.checked_add(other.0) {
            Some(v) => Ok(HoursMicros(v)),
            None => Err(ZapError::new(ErrorCode::InvalidValue)),
        }
    }
}

/// A closed hour interval whose upper bound may be unknown.
#[derive(Clone, Copy, Debug, PartialEq, Eq, Structural)]
pub struct HoursInterval {
    pub low: HoursMicros,
    pub high: Option<HoursMicros>,
}

/// A finite upper bound never lies below the lower bound.
pub open spec fn interval_ordered(low: HoursMicros, high: Option<HoursMicros>) -> bool {
    high matches Some(h) ==> low.0 <= h.0
}

impl HoursInterval {
    /// Builds an interval, refusing an upper bound below the lower bound.
    pub fn new(low: HoursMicros, high: Option<HoursMicros>) -> (r: Result<HoursInterval, ZapError>)
        ensures
            r is Ok <==> interval_ordered(low, high),
            r matches Ok(i) ==> i.low == low && i.high == high,
            r matches Err(e) ==> e.code == ErrorCode::InvalidValue,
    {
        match high {
            Some(h) => {
                if h.0 < low.0 {
                    return Err(ZapError::new(ErrorCode::InvalidValue));
                }
            },
            None => {},
        }
        Ok(HoursInterval { low, high })
    }
}

/// The sum of the lower bounds.
pub open spec fn low_total(v: Seq<HoursInterval>) -> int
    decreases v.len(),
{
    if v.len() == 0 {
        0
    } else {
        low_total(v.drop_last()) + v.last().low.0
    }
}

/// The sum of the upper bounds, unknown as soon as one is unknown.
pub open spec fn high_total(v: Seq<HoursInterval>) -> Option<int>
    decreases v.len(),
{
    if v.len() == 0 {
        Some(0)
    } else {
        match (high_total(v.drop_last()), v.last().high) {
            (Some(s), Some(h)) => Some(s + h.0),
            _ => None,
        }
    }
}

/// Some finite running sum of upper bounds leaves the `u64` range.
pub open spec fn high_overflows(v: Seq<HoursInterval>) -> bool {
    exists|j: int| 0 <= j <= v.len() && (#[trigger] high_total(v.take(j)) matches Some(s) && s > u64::MAX)
}

/// The exact outcome of summing intervals: `None` when a sum overflows or
/// the summed upper bound lies below the summed lower bound.
pub open spec fn interval_sum(v: Seq<HoursInterval>) -> Option<HoursInterval> {
    if low_total(v) > u64::MAX || high_overflows(v) {
        None
    } else {
        let low = HoursMicros(low_total(v) as u64);
        let high = match high_total(v) {
            Some(s) => Some(HoursMicros(s as u64)),
            None => None,
        };
        if interval_ordered(low, high) {
            Some(HoursInterval { low, high })
        } else {
            None
        }
    }
}

proof fn lemma_low_total_monotone(v: Seq<HoursInterval>, i: int, j: int)
    requires
        0 <= i <= j <= v.len(),
    ensures
        low_total(v.take(i)) <= low_total(v.take(j)),
    decreases j - i,
{
    if i < j {
        lemma_low_total_monotone(v, i, j - 1);
        assert(v.take(j).drop_last() =~= v.take(j - 1));
    }
}

proof fn lemma_high_total_none_stays(v: Seq<HoursInterval>, i: int, j: int)
    requires
        0 <= i <= j <= v.len(),
        high_total(v.take(i)) is None,
    ensures
        high_total(v.take(j)) is None,
    decreases j - i,
{
    if i < j {
        lemma_high_total_none_stays(v, i, j - 1);
        assert(v.take(j).drop_last() =~= v.take(j - 1));
    }
}

proof fn lemma_high_total_monotone(v: Seq<HoursInterval>, i: int, j: int)
    requires
        0 <= i <= j <= v.len(),
        high_total(v.take(j)) is Some,
    ensures
        high_total(v.take(i)) is Some,
        high_total(v.take(i))->0 <= high_total(v.take(j))->0,
    decreases j - i,
{
    if i < j {
        assert(v.take(j).drop_last() =~= v.take(j - 1));
        lemma_high_total_monotone(v, i, j - 1);
    }
}

/// Sums intervals: the lower bounds always, the upper bounds while all are
/// known; an overflow or an inverted result is refused.
pub fn sum_intervals(values: &[HoursInterval]) -> (r: Result<HoursInterval, ZapError>)
    ensures
        r is Ok <==> interval_sum(values@) is Some,
        r matches Ok(i) ==> interval_sum(values@) == Some(i),
        r matches Err(e) ==> e.code == ErrorCode::InvalidValue,
{
    let ghost v = values@;
    let mut low = HoursMicros::zero();
    let mut i: usize = 0;
    assert(v.take(0) =~= Seq::<HoursInterval>::empty());
    while i < values.len()
        invariant
            v == values@,
            0 <= i <= v.len(),
            low.0 == low_total(v.take(i as int)),
        decreases v.len() - i,
    {
        assert(v.take(i + 1).drop_last() =~= v.take(i as int));
        assert(v.take(i + 1).last() == v[i as int]);
        match low.checked_add(values[i].low) {
            Ok(s) => {
                low = s;
            },
            Err(e) => {
                proof {
                    lemma_low_total_monotone(v, i + 1, v.len() as int);
                    assert(v.take(v.len() as int) =~= v);
                }
                return Err(e);
            },
        }
        i = i + 1;
    }
    assert(v.take(v.len() as int) =~= v);
    let mut high: Option<HoursMicros> = Some(HoursMicros::zero());
    let mut j: usize = 0;
    while j < values.len()
        invariant
            v == values@,
            0 <= j <= v.len(),
            low.0 == low_total(v),
            match high_total(v.take(j as int)) {
                Some(s) => high matches Some(h) && h.0 == s,
                None => high is None,
            },
            forall|k: int| 0 <= k <= j ==> (#[trigger] high_total(v.take(k)) matches Some(s) ==> s <= u64::MAX),
        decreases v.len() - j,
    {
        assert(v.take(j + 1).drop_last() =~= v.take(j as int));
        assert(v.take(j + 1).last() == v[j as int]);
        assert(high_total(v.take(j + 1)) == match (high_total(v.take(j as int)), v[j as int].high) {
            (Some(s), Some(h)) => Some(s + h.0),
            _ => None,
        });
        match (high, values[j].high) {
            (Some(s), Some(h)) => {
                match s.checked_add(h) {
                    Ok(t) => {
                        high = Some(t);
                    },
                    Err(e) => {
                        assert(high_total(v.take(j + 1)) matches Some(x) && x > u64::MAX);
                        return Err(e);
                    },
                }
            },
            _ => {
                high = None;
            },
        }
        proof {
            assert forall|k: int| 0 <= k <= j + 1 implies (#[trigger] high_total(v.take(k)) matches Some(s) ==> s <= u64::MAX) by {
                if k == j + 1 {
                }
            }
        }
        j = j + 1;
    }
    proof {
        assert(v.take(v.len() as int) =~= v);
        assert(!high_overflows(v));
    }
    HoursInterval::new(low, high)
}

/// An open question about a cost and how it will be resolved.
#[derive(Debug)]
pub struct CostUnknown {
    pub unknown_id: String,
    pub question: String,
    pub resolution_action: String,
    pub lower_bound: HoursMicros,
    pub upper_bound: Option<HoursMicros>,
    pub material: bool,
}

/// Agent-hour and elapsed estimates with the basis they rest on.
#[derive(Debug)]
pub struct InformationCostEstimate {
    pub agent_hours: HoursInterval,
    pub elapsed: HoursInterval,
    pub basis: String,
}

impl InformationCostEstimate {
    pub open spec fn valid(&self) -> bool {
        &&& interval_ordered(self.agent_hours.low, self.agent_hours.high)
        &&& interval_ordered(self.elapsed.low, self.elapsed.high)
        &&& !blank_text(self.basis@)
    }

    pub fn validate(&self) -> (r: Result<(), ZapError>)
        ensures
            r is Ok <==> self.valid(),
            r matches Err(e) ==> e.code == ErrorCode::InvalidValue,
    {
        HoursInterval::new(self.agent_hours.low, self.agent_hours.high)?;
        HoursInterval::new(self.elapsed.low, self.elapsed.high)?;
        if blank(self.basis.as_str()) {
            return Err(ZapError::new(ErrorCode::InvalidValue));
        }
        Ok(())
    }
}

/// The acquisition, verification, coordination and delay costs of an
/// observation, with its open cost questions.
#[derive(Debug)]
pub struct InformationCosts {
    pub acquisition: InformationCostEstimate,
    pub verification: InformationCostEstimate,
    pub coordination: InformationCostEstimate,
    pub delay: HoursInterval,
    pub unknowns: Vec<CostUnknown>,
}

pub open spec fn unknown_inconsistent(u: CostUnknown) -> bool {
    ||| (u.upper_bound matches Some(h) && h.0 < u.lower_bound.0)
    ||| blank_text(u.question@)
    ||| blank_text(u.resolution_action@)
}

pub open spec fn unknown_ids_unique(v: Seq<CostUnknown>) -> bool {
    forall|i: int, j: int| 0 <= i < j < v.len() ==> (#[trigger] v[i]).unknown_id@ != (#[trigger] v[j]).unknown_id@
}

impl InformationCosts {
    pub open spec fn valid(&self) -> bool {
        &&& self.acquisition.valid()
        &&& self.verification.valid()
        &&& self.coordination.valid()
        &&& interval_ordered(self.delay.low, self.delay.high)
        &&& self.unknowns@.len() <= MAX_ITEMS
        &&& forall|i: int| 0 <= i < self.unknowns@.len() ==> !unknown_inconsistent(#[trigger] self.unknowns@[i])
        &&& unknown_ids_unique(self.unknowns@)
    }

    pub fn validate(&self) -> (r: Result<(), ZapError>)
        ensures
            r is Ok <==> self.valid(),
            r matches Err(e) ==> e.code == ErrorCode::InvalidValue,
    {
        self.acquisition.validate()?;
        self.verification.validate()?;
        self.coordination.validate()?;
        HoursInterval::new(self.delay.low, self.delay.high)?;
        if self.unknowns.len() > MAX_ITEMS {
            return Err(ZapError::new(ErrorCode::InvalidValue));
        }
        let mut i: usize = 0;
        while i < self.unknowns.len()
            invariant
                0 <= i <= self.unknowns@.len(),
                forall|k: int| 0 <= k < i ==> !unknown_inconsistent(#[trigger] self.unknowns@[k]),
                forall|a: int, b: int| 0 <= a < b < i ==> (#[trigger] self.unknowns@[a]).unknown_id@ != (#[trigger] self.unknowns@[b]).unknown_id@,
            decreases self.unknowns@.len() - i,
        {
            let u = &self.unknowns[i];
            let inverted = match u.upper_bound {
                Some(h) => h.0 < u.lower_bound.0,
                None => false,
            };
            if inverted || blank(u.question.as_str()) || blank(u.resolution_action.as_str()) {
                assert(unknown_inconsistent(self.unknowns@[i as int]));
                return Err(ZapError::new(ErrorCode::InvalidValue));
            }
            let mut j: usize = 0;
            while j < i
                invariant
                    0 <= j <= i < self.unknowns@.len(),
                    forall|a: int| 0 <= a < j ==> self.unknowns@[a].unknown_id@ != self.unknowns@[i as int].unknown_id@,
                decreases i - j,
            {
                if compare_text(self.unknowns[j].unknown_id.as_str(), self.unknowns[i].unknown_id.as_str()) == 0 {
                    assert(!unknown_ids_unique(self.unknowns@)) by {
                        assert(self.unknowns@[j as int].unknown_id@ == self.unknowns@[i as int].unknown_id@);
                    }
                    return Err(ZapError::new(ErrorCode::InvalidValue));
                }
                j = j + 1;
            }
            i = i + 1;
        }
        Ok(())
    }

    /// The three agent-hour intervals that an observation consumes.
    pub open spec fn agent_parts(&self) -> Seq<HoursInterval> {
        seq![self.acquisition.agent_hours, self.verification.agent_hours, self.coordination.agent_hours]
    }

    /// The three elapsed intervals and the delay.
    pub open spec fn elapsed_parts(&self) -> Seq<HoursInterval> {
        seq![self.acquisition.elapsed, self.verification.elapsed, self.coordination.elapsed, self.delay]
    }

    /// Total agent hours of acquisition, verification and coordination.
    pub fn agent_hours(&self) -> (r: Result<HoursInterval, ZapError>)
        ensures
            r is Ok <==> interval_sum(self.agent_parts()) is Some,
            r matches Ok(i) ==> interval_sum(self.agent_parts()) == Some(i),
            r matches Err(e) ==> e.code == ErrorCode::InvalidValue,
    {
        let parts = [self.acquisition.agent_hours, self.verification.agent_hours, self.coordination.agent_hours];
        assert(parts@ =~= self.agent_parts());
        sum_intervals(&parts)
    }

    /// Total elapsed hours, including the delay.
    pub fn elapsed(&self) -> (r: Result<HoursInterval, ZapError>)
        ensures
            r is Ok <==> interval_sum(self.elapsed_parts()) is Some,
            r matches Ok(i) ==> interval_sum(self.elapsed_parts()) == Some(i),
            r matches Err(e) ==> e.code == ErrorCode::InvalidValue,
    {
        let parts = [self.acquisition.elapsed, self.verification.elapsed, self.coordination.elapsed, self.delay];
        assert(parts@ =~= self.elapsed_parts());
        sum_intervals(&parts)
    }

    pub open spec fn spec_materially_unknown(&self) -> bool {
        exists|i: int| 0 <= i < self.unknowns@.len() && (#[trigger] self.unknowns@[i]).material
    }

    /// Whether some open cost question is material.
    pub fn materially_unknown(&self) -> (r: bool)
        ensures
            r == self.spec_materially_unknown(),
    {
        let mut i: usize = 0;
        while i < self.unknowns.len()
            invariant
                0 <= i <= self.unknowns@.len(),
                forall|k: int| 0 <= k < i ==> !(#[trigger] self.unknowns@[k]).material,
            decreases self.unknowns@.len() - i,
        {
            if self.unknowns[i].material {
                return true;
            }
            i = i + 1;
        }
        false
    }
}

} // verus!

verus! {

/// The captured state of a source that an observation reads.
#[derive(Clone, Copy, Debug, PartialEq, Eq, Structural)]
pub struct SourceCapture {
    pub source_id: SourceId,
    pub digest: DigestValue,
}

/// Whether a source is established to apply to the current question.
#[derive(Clone, Copy, Debug, PartialEq, Eq, Structural)]
pub enum SourceApplicabilityStatus {
    Applicable,
    NotApplicable,
    Unassessed,
}

#[derive(Clone, Copy, Debug, PartialEq, Eq, Structural)]
pub struct InformationSourceBinding {
    pub capture: SourceCapture,
    pub applicability: SourceApplicabilityStatus,
    pub applicability_basis: DigestValue,
}

#[derive(Debug)]
pub struct InformationPossibility {
    pub possibility_id: String,
    pub description: String,
}

#[derive(Debug)]
pub enum InformationDecisionBasis {
    OwnerDecision { decision_id: DecisionId, expected_revision: u64 },
    StrategicFork { strategy_id: StrategicRevisionId, expected_strategy_revision: u64, fork_id: ForkId },
    Region { region_id: RegionId, expected_revision: u64 },
    Outcome { outcome_id: OutcomeId, expected_revision: u64 },
    Unresolved { reason: String },
}

/// The decision improvement an observation promises.
#[derive(Debug)]
pub enum DecisionBenefit {
    AvoidedAgentHours { range: HoursInterval, basis: String },
    AvoidedElapsedHours { range: HoursInterval, basis: String },
    Unknown { question: String, resolution_action: String },
}

impl DecisionBenefit {
    pub open spec fn valid(&self) -> bool {
        match self {
            DecisionBenefit::AvoidedAgentHours { range, basis } => interval_ordered(range.low, range.high) && !blank_text(basis@),
            DecisionBenefit::AvoidedElapsedHours { range, basis } => interval_ordered(range.low, range.high) && !blank_text(basis@),
            DecisionBenefit::Unknown { question, resolution_action } => !blank_text(question@) && !blank_text(resolution_action@),
        }
    }

    pub fn validate(&self) -> (r: Result<(), ZapError>)
        ensures
            r is Ok <==> self.valid(),
            r matches Err(e) ==> e.code == ErrorCode::InvalidValue,
    {
        match self {
            DecisionBenefit::AvoidedAgentHours { range, basis } | DecisionBenefit::AvoidedElapsedHours { range, basis } => {
                HoursInterval::new(range.low, range.high)?;
                if blank(basis.as_str()) {
                    return Err(ZapError::new(ErrorCode::InvalidValue));
                }
            },
            DecisionBenefit::Unknown { question, resolution_action } => {
                if blank(question.as_str()) || blank(resolution_action.as_str()) {
                    return Err(ZapError::new(ErrorCode::InvalidValue));
                }
            },
        }
        Ok(())
    }
}

#[derive(Debug)]
pub enum ObservationPower {
    Decisive { distinguishes: Vec<String> },
    Informative,
}

#[derive(Clone, Copy, Debug, PartialEq, Eq, Structural)]
pub enum InformationStopEnforcement {
    /// Lowering must carry the rule into the ordinary task contract and packet safe boundary.
    ContractBoundary,
    /// The rule informs the decision and is not represented as a machine-enforced runtime limit.
    DecisionGuidance,
}

#[derive(Debug)]
pub struct InformationStopRule {
    pub stop_when_observed: bool,
    pub maximum_attempts: Option<u32>,
    pub maximum_agent_hours: Option<HoursMicros>,
    pub maximum_elapsed: Option<HoursMicros>,
    pub stop_on_source_drift: bool,
    pub enforcement: InformationStopEnforcement,
    pub explanation: String,
}

impl InformationStopRule {
    /// The rule bounds the observation somehow, every attempt bound is
    /// positive, and the rule is explained.
    pub open spec fn valid(&self) -> bool {
        &&& (self.stop_when_observed || self.maximum_attempts is Some || self.maximum_agent_hours is Some
            || self.maximum_elapsed is Some || self.stop_on_source_drift)
        &&& self.maximum_attempts != Some(0u32)
        &&& !blank_text(self.explanation@)
    }

    pub fn validate(&self) -> (r: Result<(), ZapError>)
        ensures
            r is Ok <==> self.valid(),
            r matches Err(e) ==> e.code == ErrorCode::InvalidValue,
    {
        let unbounded = !self.stop_when_observed && self.maximum_attempts.is_none() && self.maximum_agent_hours.is_none()
            && self.maximum_elapsed.is_none() && !self.stop_on_source_drift;
        let zero_attempts = match self.maximum_attempts {
            Some(n) => n == 0,
            None => false,
        };
        if unbounded || zero_attempts || blank(self.explanation.as_str()) {
            return Err(ZapError::new(ErrorCode::InvalidValue));
        }
        Ok(())
    }
}

/// The bounded horizon over which an observation is planned.
#[derive(Clone, Copy, Debug, PartialEq, Eq, Structural)]
pub struct BoundedHorizon {
    pub horizon: u64,
}

/// The content of an information opportunity: which decision it informs,
/// what it would observe, and its costs, benefit and stop rule.
#[derive(Debug)]
pub struct InformationOpportunityContent {
    pub name: String,
    pub decision_id: DecisionId,
    pub decision_basis: InformationDecisionBasis,
    pub possibilities: Vec<InformationPossibility>,
    pub unknown_condition: Option<String>,
    pub observation_sought: String,
    pub observation_power: ObservationPower,
    pub sources: Vec<InformationSourceBinding>,
    pub regions: Vec<RegionId>,
    pub horizons: Vec<BoundedHorizon>,
    pub costs: InformationCosts,
    pub benefit: DecisionBenefit,
    pub stop_rule: InformationStopRule,
    pub satisfying_evidence_ids: Vec<EvidenceId>,
}

pub open spec fn ids_sorted_unique_evidence(v: Seq<EvidenceId>) -> bool {
    forall|i: int, j: int| 0 <= i < j < v.len() ==> (#[trigger] v[i]).0 < (#[trigger] v[j]).0
}

pub open spec fn regions_sorted_unique(v: Seq<RegionId>) -> bool {
    forall|i: int, j: int| 0 <= i < j < v.len() ==> (#[trigger] v[i]).0 < (#[trigger] v[j]).0
}

pub open spec fn sources_sorted_unique(v: Seq<InformationSourceBinding>) -> bool {
    forall|i: int, j: int| 0 <= i < j < v.len() ==> (#[trigger] v[i]).capture.source_id.0 < (#[trigger] v[j]).capture.source_id.0
}

pub open spec fn texts_sorted_unique(v: Seq<String>) -> bool {
    forall|i: int, j: int| 0 <= i < j < v.len() ==> text_lt((#[trigger] v[i])@, (#[trigger] v[j])@)
}

pub open spec fn possibility_ids_unique(v: Seq<InformationPossibility>) -> bool {
    forall|i: int, j: int| 0 <= i < j < v.len() ==> (#[trigger] v[i]).possibility_id@ != (#[trigger] v[j]).possibility_id@
}

pub open spec fn declares_possibility(v: Seq<InformationPossibility>, id: Seq<char>) -> bool {
    exists|k: int| 0 <= k < v.len() && (#[trigger] v[k]).possibility_id@ == id
}

impl InformationOpportunityContent {
    /// The Owner decision basis, when it is one, names this decision.
    pub open spec fn basis_names_decision(&self) -> bool {
        match self.decision_basis {
            InformationDecisionBasis::OwnerDecision { decision_id, .. } => decision_id == self.decision_id,
            _ => true,
        }
    }

    /// The opportunity is complete and canonical.
    pub open spec fn shape_valid(&self) -> bool {
        &&& !blank_text(self.name@)
        &&& !blank_text(self.observation_sought@)
        &&& (self.possibilities@.len() >= 2 || self.unknown_condition is Some)
        &&& self.sources@.len() > 0
        &&& self.possibilities@.len() <= MAX_ITEMS
        &&& self.sources@.len() <= MAX_ITEMS
        &&& self.regions@.len() <= MAX_ITEMS
        &&& self.horizons@.len() <= MAX_ITEMS
        &&& self.satisfying_evidence_ids@.len() <= MAX_ITEMS
        &&& possibility_ids_unique(self.possibilities@)
        &&& (forall|i: int| 0 <= i < self.possibilities@.len() ==> !blank_text((#[trigger] self.possibilities@[i]).description@))
        &&& sources_sorted_unique(self.sources@)
        &&& regions_sorted_unique(self.regions@)
        &&& ids_sorted_unique_evidence(self.satisfying_evidence_ids@)
        &&& (self.unknown_condition matches Some(c) ==> !blank_text(c@))
    }

    /// A decisive observation names exactly the declared possibilities, in
    /// canonical order.
    pub open spec fn power_valid(&self) -> bool {
        match self.observation_power {
            ObservationPower::Decisive { distinguishes } => {
                &&& distinguishes@.len() > 0
                &&& texts_sorted_unique(distinguishes@)
                &&& distinguishes@.len() == self.possibilities@.len()
                &&& forall|i: int| 0 <= i < distinguishes@.len() ==> declares_possibility(self.possibilities@, (#[trigger] distinguishes@[i])@)
            },
            ObservationPower::Informative => true,
        }
    }

    pub open spec fn valid(&self) -> bool {
        &&& self.costs.valid()
        &&& self.benefit.valid()
        &&& self.stop_rule.valid()
        &&& self.basis_names_decision()
        &&& self.shape_valid()
        &&& self.power_valid()
    }

    fn check_shape(&self) -> (r: bool)
        ensures
            r == self.shape_valid(),
    {
        if blank(self.name.as_str()) || blank(self.observation_sought.as_str()) {
            return false;
        }
        if self.possibilities.len() < 2 && self.unknown_condition.is_none() {
            return false;
        }
        if self.sources.len() == 0 || self.possibilities.len() > MAX_ITEMS || self.sources.len() > MAX_ITEMS
            || self.regions.len() > MAX_ITEMS || self.horizons.len() > MAX_ITEMS
            || self.satisfying_evidence_ids.len() > MAX_ITEMS {
            return false;
        }
        let n = self.possibilities.len();
        let mut i: usize = 0;
        while i < n
            invariant
                n == self.possibilities@.len(),
                0 <= i <= n,
                forall|a: int, b: int| 0 <= a < b < i ==> (#[trigger] self.possibilities@[a]).possibility_id@ != (#[trigger] self.possibilities@[b]).possibility_id@,
                forall|k: int| 0 <= k < i ==> !blank_text((#[trigger] self.possibilities@[k]).description@),
            decreases n - i,
        {
            if blank(self.possibilities[i].description.as_str()) {
                return false;
            }
            let mut j: usize = 0;
            while j < i
                invariant
                    0 <= j <= i < n,
                    n == self.possibilities@.len(),
                    forall|a: int| 0 <= a < j ==> self.possibilities@[a].possibility_id@ != self.possibilities@[i as int].possibility_id@,
                decreases i - j,
            {
                if compare_text(self.possibilities[j].possibility_id.as_str(), self.possibilities[i].possibility_id.as_str()) == 0 {
                    assert(!possibility_ids_unique(self.possibilities@)) by {
                        assert(self.possibilities@[j as int].possibility_id@ == self.possibilities@[i as int].possibility_id@);
                    }
                    return false;
                }
                j = j + 1;
            }
            i = i + 1;
        }
        let mut k: usize = 1;
        while k < self.sources.len()
            invariant
                1 <= k,
                k <= self.sources@.len() || self.sources@.len() == 0,
                self.sources@.len() > 0,
                forall|a: int, b: int| 0 <= a < b < k ==> (#[trigger] self.sources@[a]).capture.source_id.0 < (#[trigger] self.sources@[b]).capture.source_id.0,
            decreases self.sources@.len() - k,
        {
            if self.sources[k - 1].capture.source_id.0 >= self.sources[k].capture.source_id.0 {
                return false;
            }
            k = k + 1;
        }
        if !regions_strictly_increasing(&self.regions) || !evidence_strictly_increasing(&self.satisfying_evidence_ids) {
            return false;
        }
        match &self.unknown_condition {
            Some(c) => !blank(c.as_str()),
            None => true,
        }
    }

    #[verifier::loop_isolation(false)]
    fn check_power(&self) -> (r: bool)
        ensures
            r == self.power_valid(),
    {
        match &self.observation_power {
            ObservationPower::Decisive { distinguishes } => {
                if distinguishes.len() == 0 || !texts_strictly_increasing(distinguishes)
                    || distinguishes.len() != self.possibilities.len() {
                    return false;
                }
                let mut i: usize = 0;
                while i < distinguishes.len()
                    invariant
                        0 <= i <= distinguishes@.len(),
                        forall|k: int| 0 <= k < i ==> declares_possibility(self.possibilities@, (#[trigger] distinguishes@[k])@),
                    decreases distinguishes@.len() - i,
                {
                    let mut found = false;
                    let mut j: usize = 0;
                    while j < self.possibilities.len()
                        invariant
                            0 <= j <= self.possibilities@.len(),
                            0 <= i < distinguishes@.len(),
                            found ==> declares_possibility(self.possibilities@, distinguishes@[i as int]@),
                            !found ==> forall|a: int| 0 <= a < j ==> self.possibilities@[a].possibility_id@ != distinguishes@[i as int]@,
                        decreases self.possibilities@.len() - j,
                    {
                        if compare_text(self.possibilities[j].possibility_id.as_str(), distinguishes[i].as_str()) == 0 {
                            found = true;
                        }
                        j = j + 1;
                    }
                    if !found {
                        assert(!declares_possibility(self.possibilities@, distinguishes@[i as int]@));
                        return false;
                    }
                    i = i + 1;
                }
                true
            },
            ObservationPower::Informative => true,
        }
    }

    /// Validates costs, benefit and stop rule, then the opportunity's
    /// completeness and canonical order, then its decisive observation.
    pub fn validate(&self) -> (r: Result<(), ZapError>)
        ensures
            r is Ok <==> self.valid(),
            r matches Err(e) ==> e.code == ErrorCode::InvalidValue,
    {
        self.costs.validate()?;
        self.benefit.validate()?;
        self.stop_rule.validate()?;
        match &self.decision_basis {
            InformationDecisionBasis::OwnerDecision { decision_id, .. } => {
                if decision_id.0 != self.decision_id.0 {
                    return Err(ZapError::new(ErrorCode::InvalidValue));
                }
            },
            _ => {},
        }
        if !self.check_shape() {
            return Err(ZapError::new(ErrorCode::InvalidValue));
        }
        if !self.check_power() {
            return Err(ZapError::new(ErrorCode::InvalidValue));
        }
        Ok(())
    }

    pub open spec fn spec_source_ids(&self) -> Seq<SourceId> {
        self.sources@.map_values(|b: InformationSourceBinding| b.capture.source_id)
    }

    /// The sources the observation reads, in declaration order.
    pub fn source_ids(&self) -> (r: Vec<SourceId>)
        ensures
            r@ == self.spec_source_ids(),
    {
        let mut out: Vec<SourceId> = Vec::new();
        let mut i: usize = 0;
        while i < self.sources.len()
            invariant
                0 <= i <= self.sources@.len(),
                out@ == self.sources@.subrange(0, i as int).map_values(|b: InformationSourceBinding| b.capture.source_id),
            decreases self.sources@.len() - i,
        {
            out.push(self.sources[i].capture.source_id);
            assert(self.sources@.subrange(0, i + 1) =~= self.sources@.subrange(0, i as int).push(self.sources@[i as int]));
            assert(out@ =~= self.sources@.subrange(0, i + 1).map_values(|b: InformationSourceBinding| b.capture.source_id));
            i = i + 1;
        }
        assert(self.sources@.subrange(0, i as int) =~= self.sources@);
        out
    }
}

fn regions_strictly_increasing(v: &Vec<RegionId>) -> (r: bool)
    ensures
        r == regions_sorted_unique(v@),
{
    let mut k: usize = 1;
    if v.len() == 0 {
        return true;
    }
    while k < v.len()
        invariant
            1 <= k <= v@.len(),
            forall|a: int, b: int| 0 <= a < b < k ==> (#[trigger] v@[a]).0 < (#[trigger] v@[b]).0,
        decreases v@.len() - k,
    {
        if v[k - 1].0 >= v[k].0 {
            return false;
        }
        k = k + 1;
    }
    true
}

fn evidence_strictly_increasing(v: &Vec<EvidenceId>) -> (r: bool)
    ensures
        r == ids_sorted_unique_evidence(v@),
{
    let mut k: usize = 1;
    if v.len() == 0 {
        return true;
    }
    while k < v.len()
        invariant
            1 <= k <= v@.len(),
            forall|a: int, b: int| 0 <= a < b < k ==> (#[trigger] v@[a]).0 < (#[trigger] v@[b]).0,
        decreases v@.len() - k,
    {
        if v[k - 1].0 >= v[k].0 {
            return false;
        }
        k = k + 1;
    }
    true
}

fn texts_strictly_increasing(v: &Vec<String>) -> (r: bool)
    ensures
        r == texts_sorted_unique(v@),
{
    let mut k: usize = 1;
    if v.len() == 0 {
        return true;
    }
    while k < v.len()
        invariant
            1 <= k <= v@.len(),
            forall|a: int, b: int| 0 <= a < b < k ==> text_lt((#[trigger] v@[a])@, (#[trigger] v@[b])@),
        decreases v@.len() - k,
    {
        if compare_text(v[k - 1].as_str(), v[k].as_str()) != -1 {
            return false;
        }
        proof {
            assert forall|a: int, b: int| 0 <= a < b < k + 1 implies text_lt((#[trigger] v@[a])@, (#[trigger] v@[b])@) by {
                if b == k && a < k - 1 {
                    crate::bytes::lemma_lex_transitive(
                        vstd::utf8::encode_utf8(v@[a]@),
                        vstd::utf8::encode_utf8(v@[k - 1]@),
                        vstd::utf8::encode_utf8(v@[k as int]@),
                    );
                }
            }
        }
        k = k + 1;
    }
    true
}

} // verus!

verus! {

/// A stored information opportunity with its revision and fingerprints.
#[derive(Debug)]
pub struct InformationOpportunityRecord {
    pub opportunity_id: InformationOpportunityId,
    pub content: InformationOpportunityContent,
    pub revision: u64,
    pub semantic_fingerprint: DigestValue,
    pub basis_fingerprint: DigestValue,
    pub selection_id: Option<u64>,
}

/// The stable proposed Work binding of a selected opportunity.
#[derive(Clone, Copy, Debug, PartialEq, Eq, Structural)]
pub struct InformationSelectionRecord {
    pub selection_id: InformationSelectionId,
    pub revision: u64,
    pub opportunity_id: InformationOpportunityId,
    pub work_type: WorkType,
    pub opportunity_revision: u64,
    pub opportunity_fingerprint: DigestValue,
    pub basis_fingerprint: DigestValue,
    pub candidate_work_id: WorkId,
}

#[derive(Clone, Copy, Debug, PartialEq, Eq, Structural)]
pub enum OpportunityFreshness {
    Current,
    Stale,
    UnsupportedDecisionBasis,
}

#[derive(Clone, Copy, Debug, PartialEq, Eq, Structural)]
pub enum InformationRecommendationKind {
    Worthwhile,
    NotWorthwhile,
    Unknown,
    CheaperDecisive,
    Dominated,
    AlreadySatisfied,
    AlreadySelected,
}

#[derive(Clone, Copy, Debug, PartialEq, Eq, Structural)]
pub struct InformationBasisEvaluationCost {
    pub exact_decision_records: u32,
    pub exact_source_records: u32,
    pub exact_applicability_records: u32,
    pub exact_region_records: u32,
}

#[derive(Clone, Copy, Debug, PartialEq, Eq, Structural)]
pub enum InformationProofValidationCost {
    NotUsed,
    StoreWideCurrentProofContextScan { requested_evidence: u32 },
}

#[derive(Debug)]
pub struct InformationRecommendation {
    pub opportunity_id: InformationOpportunityId,
    pub kind: InformationRecommendationKind,
    pub reason: String,
    pub preferred_opportunity_id: Option<InformationOpportunityId>,
    pub reusable_work_id: Option<WorkId>,
    pub reusable_evidence_ids: Vec<EvidenceId>,
    pub proof_validation_cost: InformationProofValidationCost,
    pub basis_evaluation_cost: InformationBasisEvaluationCost,
    pub opportunity_revision: u64,
    pub opportunity_fingerprint: DigestValue,
    pub basis_fingerprint: DigestValue,
}

/// One adjudicated evidence item of the current-proof graph and the source
/// captures it rests on.
#[derive(Debug)]
pub struct CurrentProofRow {
    pub evidence_id: EvidenceId,
    pub source_captures: Vec<SourceCapture>,
}

/// The current-proof graph, one row per evidence item.
#[derive(Debug)]
pub struct CurrentProofSet {
    pub rows: Vec<CurrentProofRow>,
}

/// The row of the current-proof graph for an evidence item (its first row).
pub open spec fn proof_row(rows: Seq<CurrentProofRow>, id: EvidenceId) -> Option<CurrentProofRow>
    decreases rows.len(),
{
    if rows.len() == 0 {
        None
    } else if rows[0].evidence_id == id {
        Some(rows[0])
    } else {
        proof_row(rows.drop_first(), id)
    }
}

/// Some capture of the evidence reads the source, and the opportunity binds
/// that very capture.
pub open spec fn covers_source(captures: Seq<SourceCapture>, sources: Seq<InformationSourceBinding>, source_id: SourceId) -> bool {
    exists|c: int| 0 <= c < captures.len() && (#[trigger] captures[c]).source_id == source_id && binds_capture(sources, captures[c])
}

/// The evidence item covers every required source with a capture that the
/// opportunity itself binds.
pub open spec fn evidence_reusable(opp: InformationOpportunityRecord, rows: Seq<CurrentProofRow>, id: EvidenceId) -> bool {
    match proof_row(rows, id) {
        Some(row) => forall|s: int| 0 <= s < opp.content.sources@.len() ==> covers_source(
            row.source_captures@,
            opp.content.sources@,
            (#[trigger] opp.content.sources@[s]).capture.source_id,
        ),
        None => false,
    }
}

pub open spec fn binds_capture(sources: Seq<InformationSourceBinding>, capture: SourceCapture) -> bool {
    exists|b: int| 0 <= b < sources.len() && (#[trigger] sources[b]).capture == capture
}

pub open spec fn reusable_evidence(opp: InformationOpportunityRecord, rows: Seq<CurrentProofRow>) -> Seq<EvidenceId> {
    opp.content.satisfying_evidence_ids@.filter(|id: EvidenceId| evidence_reusable(opp, rows, id))
}

fn find_proof_row<'a>(rows: &'a Vec<CurrentProofRow>, id: EvidenceId) -> (r: Option<&'a CurrentProofRow>)
    ensures
        r matches Some(row) ==> proof_row(rows@, id) == Some(*row),
        r is None ==> proof_row(rows@, id) is None,
{
    let mut i: usize = 0;
    assert(rows@.subrange(0, rows@.len() as int) =~= rows@);
    while i < rows.len()
        invariant
            0 <= i <= rows@.len(),
            proof_row(rows@, id) == proof_row(rows@.subrange(i as int, rows@.len() as int), id),
        decreases rows@.len() - i,
    {
        let ghost rest = rows@.subrange(i as int, rows@.len() as int);
        assert(rest.drop_first() =~= rows@.subrange(i + 1, rows@.len() as int));
        if rows[i].evidence_id.0 == id.0 {
            return Some(&rows[i]);
        }
        i = i + 1;
    }
    None
}

fn binds_capture_exec(sources: &Vec<InformationSourceBinding>, capture: SourceCapture) -> (r: bool)
    ensures
        r == binds_capture(sources@, capture),
{
    let mut b: usize = 0;
    while b < sources.len()
        invariant
            0 <= b <= sources@.len(),
            forall|k: int| 0 <= k < b ==> (#[trigger] sources@[k]).capture != capture,
        decreases sources@.len() - b,
    {
        if sources[b].capture == capture {
            return true;
        }
        b = b + 1;
    }
    false
}

fn covers_source_exec(captures: &Vec<SourceCapture>, sources: &Vec<InformationSourceBinding>, source_id: SourceId) -> (r: bool)
    ensures
        r == covers_source(captures@, sources@, source_id),
{
    let mut c: usize = 0;
    while c < captures.len()
        invariant
            0 <= c <= captures@.len(),
            forall|k: int| 0 <= k < c ==> !((#[trigger] captures@[k]).source_id == source_id && binds_capture(sources@, captures@[k])),
        decreases captures@.len() - c,
    {
        let cap = captures[c];
        if cap.source_id == source_id && binds_capture_exec(sources, cap) {
            return true;
        }
        c = c + 1;
    }
    false
}

fn evidence_reusable_exec(opp: &InformationOpportunityRecord, current: &CurrentProofSet, id: EvidenceId) -> (r: bool)
    ensures
        r == evidence_reusable(*opp, current.rows@, id),
{
    let row = match find_proof_row(&current.rows, id) {
        Some(row) => row,
        None => return false,
    };
    let sources = &opp.content.sources;
    let mut s: usize = 0;
    while s < sources.len()
        invariant
            0 <= s <= sources@.len(),
            sources@ == opp.content.sources@,
            proof_row(current.rows@, id) == Some(*row),
            forall|k: int| 0 <= k < s ==> covers_source(row.source_captures@, sources@, (#[trigger] sources@[k]).capture.source_id),
        decreases sources@.len() - s,
    {
        if !covers_source_exec(&row.source_captures, sources, sources[s].capture.source_id) {
            return false;
        }
        s = s + 1;
    }
    true
}

/// The retained evidence that the current-proof graph validates for every
/// source the opportunity binds, in declaration order.
pub fn current_reusable_evidence(opportunity: &InformationOpportunityRecord, current: &CurrentProofSet) -> (r: Vec<EvidenceId>)
    ensures
        r@ == reusable_evidence(*opportunity, current.rows@),
{
    let ids = &opportunity.content.satisfying_evidence_ids;
    let ghost pred = |id: EvidenceId| evidence_reusable(*opportunity, current.rows@, id);
    let mut out: Vec<EvidenceId> = Vec::new();
    let mut i: usize = 0;
    assert(ids@.take(0) =~= Seq::<EvidenceId>::empty());
    while i < ids.len()
        invariant
            0 <= i <= ids@.len(),
            out@ == ids@.take(i as int).filter(pred),
            pred == (|id: EvidenceId| evidence_reusable(*opportunity, current.rows@, id)),
        decreases ids@.len() - i,
    {
        reveal_with_fuel(Seq::<_>::filter, 1);
        assert(ids@.take(i + 1).drop_last() =~= ids@.take(i as int));
        let id = ids[i];
        if evidence_reusable_exec(opportunity, current, id) {
            out.push(id);
        }
        i = i + 1;
    }
    assert(ids@.take(ids@.len() as int) =~= ids@);
    out
}

proof fn lemma_proof_row_found(rows: Seq<CurrentProofRow>, id: EvidenceId)
    ensures
        proof_row(rows, id) matches Some(row) ==> exists|i: int| 0 <= i < rows.len() && rows[i] == row && row.evidence_id == id,
        (exists|i: int| 0 <= i < rows.len() && rows[i].evidence_id == id) ==> proof_row(rows, id) is Some,
    decreases rows.len(),
{
    if rows.len() > 0 {
        lemma_proof_row_found(rows.drop_first(), id);
        if rows[0].evidence_id != id {
            if proof_row(rows, id) is Some {
                let row = proof_row(rows, id)->0;
                let i = choose|i: int| 0 <= i < rows.drop_first().len() && rows.drop_first()[i] == row && row.evidence_id == id;
                assert(rows[i + 1] == row);
            }
            if exists|i: int| 0 <= i < rows.len() && rows[i].evidence_id == id {
                let i = choose|i: int| 0 <= i < rows.len() && rows[i].evidence_id == id;
                assert(rows.drop_first()[i - 1] == rows[i]);
            }
        } else {
            assert(rows[0] == rows[0]);
        }
    }
}

/// Some capture of `caps` reads the source and is bound by the list.
pub open spec fn source_has_bound_capture(caps: Seq<SourceCapture>, sources: Seq<InformationSourceBinding>, source_id: SourceId) -> bool {
    exists|c: int, b: int|
        #![trigger caps[c], sources[b]]
        0 <= c < caps.len() && 0 <= b < sources.len() && caps[c].source_id == source_id && sources[b].capture == caps[c]
}

/// Every source of the list is covered by a capture of `caps` that reads
/// that source and that the list itself binds.
pub open spec fn captures_cover_sources(caps: Seq<SourceCapture>, sources: Seq<InformationSourceBinding>) -> bool {
    forall|s: int| 0 <= s < sources.len() ==> #[trigger] source_has_bound_capture(caps, sources, sources[s].capture.source_id)
}

proof fn lemma_cover_one(caps: Seq<SourceCapture>, sources: Seq<InformationSourceBinding>, source_id: SourceId)
    ensures
        source_has_bound_capture(caps, sources, source_id) == covers_source(caps, sources, source_id),
{
    if source_has_bound_capture(caps, sources, source_id) {
        let (c, b) = choose|c: int, b: int|
            #![trigger caps[c], sources[b]]
            0 <= c < caps.len() && 0 <= b < sources.len() && caps[c].source_id == source_id && sources[b].capture == caps[c];
        assert(binds_capture(sources, caps[c]));
    }
    if covers_source(caps, sources, source_id) {
        let c = choose|c: int| 0 <= c < caps.len() && (#[trigger] caps[c]).source_id == source_id && binds_capture(sources, caps[c]);
        let b = choose|b: int| 0 <= b < sources.len() && (#[trigger] sources[b]).capture == caps[c];
        assert(caps[c] == caps[c] && sources[b] == sources[b]);
    }
}

proof fn lemma_cover_by_source(caps: Seq<SourceCapture>, sources: Seq<InformationSourceBinding>)
    ensures
        captures_cover_sources(caps, sources) <==> forall|s: int| 0 <= s < sources.len() ==> covers_source(
            caps,
            sources,
            (#[trigger] sources[s]).capture.source_id,
        ),
{
    assert forall|s: int| 0 <= s < sources.len() implies source_has_bound_capture(caps, sources, (#[trigger] sources[s]).capture.source_id)
        == covers_source(caps, sources, sources[s].capture.source_id) by {
        lemma_cover_one(caps, sources, sources[s].capture.source_id);
    }
}

/// Retained evidence is reported reusable only when the current-proof graph
/// holds a row for it whose captures cover every source the opportunity
/// binds, each with a capture the opportunity itself binds; and retained
/// evidence whose every row covers every source in that way is reported.
pub proof fn law_reusable_evidence_covers_every_source(opp: InformationOpportunityRecord, rows: Seq<CurrentProofRow>, id: EvidenceId)
    ensures
        reusable_evidence(opp, rows).contains(id) ==> opp.content.satisfying_evidence_ids@.contains(id) && exists|i: int|
            0 <= i < rows.len() && (#[trigger] rows[i]).evidence_id == id
                && captures_cover_sources(rows[i].source_captures@, opp.content.sources@),
        opp.content.satisfying_evidence_ids@.contains(id) && (exists|i: int| 0 <= i < rows.len() && (#[trigger] rows[i]).evidence_id == id)
            && (forall|i: int| 0 <= i < rows.len() && (#[trigger] rows[i]).evidence_id == id
                ==> captures_cover_sources(rows[i].source_captures@, opp.content.sources@))
            ==> reusable_evidence(opp, rows).contains(id),
{
    let ids = opp.content.satisfying_evidence_ids@;
    let pred = |x: EvidenceId| evidence_reusable(opp, rows, x);
    assert(reusable_evidence(opp, rows) == ids.filter(pred));
    lemma_proof_row_found(rows, id);
    if reusable_evidence(opp, rows).contains(id) {
        ids.lemma_filter_contains_rev(pred, id);
        let k = choose|k: int| 0 <= k < ids.filter(pred).len() && ids.filter(pred)[k] == id;
        ids.lemma_filter_pred(pred, k);
        assert(evidence_reusable(opp, rows, id));
        let row = proof_row(rows, id)->0;
        let i = choose|i: int| 0 <= i < rows.len() && rows[i] == row && row.evidence_id == id;
        lemma_cover_by_source(row.source_captures@, opp.content.sources@);
        assert(captures_cover_sources(rows[i].source_captures@, opp.content.sources@));
    }
    if ids.contains(id) && (exists|i: int| 0 <= i < rows.len() && (#[trigger] rows[i]).evidence_id == id)
        && (forall|i: int| 0 <= i < rows.len() && (#[trigger] rows[i]).evidence_id == id
            ==> captures_cover_sources(rows[i].source_captures@, opp.content.sources@)) {
        let row = proof_row(rows, id)->0;
        let i = choose|i: int| 0 <= i < rows.len() && rows[i] == row && row.evidence_id == id;
        assert(captures_cover_sources(rows[i].source_captures@, opp.content.sources@));
        lemma_cover_by_source(row.source_captures@, opp.content.sources@);
        assert(pred(id));
        let k = choose|k: int| 0 <= k < ids.len() && ids[k] == id;
        ids.lemma_filter_contains(pred, k);
    }
}

} // verus!

verus! {

/// The candidate's highest cost is at most the target's lowest cost.
pub open spec fn spec_interval_dominates(candidate: HoursInterval, target: HoursInterval) -> bool {
    candidate.high matches Some(h) && h.0 <= target.low.0
}

pub fn interval_dominates(candidate: HoursInterval, target: HoursInterval) -> (r: bool)
    ensures
        r == spec_interval_dominates(candidate, target),
{
    match candidate.high {
        Some(h) => h.0 <= target.low.0,
        None => false,
    }
}

/// `a < Some(b)` in the order of `Option`, where `None` sorts first.
pub open spec fn option_below(a: Option<HoursMicros>, b: HoursMicros) -> bool {
    match a {
        Some(x) => x.0 < b.0,
        None => true,
    }
}

fn option_below_exec(a: Option<HoursMicros>, b: HoursMicros) -> (r: bool)
    ensures
        r == option_below(a, b),
{
    match a {
        Some(x) => x.0 < b.0,
        None => true,
    }
}

pub open spec fn same_basis(a: InformationDecisionBasis, b: InformationDecisionBasis) -> bool {
    match (a, b) {
        (
            InformationDecisionBasis::OwnerDecision { decision_id: d1, expected_revision: r1 },
            InformationDecisionBasis::OwnerDecision { decision_id: d2, expected_revision: r2 },
        ) => d1 == d2 && r1 == r2,
        (
            InformationDecisionBasis::StrategicFork { strategy_id: s1, expected_strategy_revision: r1, fork_id: f1 },
            InformationDecisionBasis::StrategicFork { strategy_id: s2, expected_strategy_revision: r2, fork_id: f2 },
        ) => s1 == s2 && r1 == r2 && f1 == f2,
        (
            InformationDecisionBasis::Region { region_id: g1, expected_revision: r1 },
            InformationDecisionBasis::Region { region_id: g2, expected_revision: r2 },
        ) => g1 == g2 && r1 == r2,
        (
            InformationDecisionBasis::Outcome { outcome_id: o1, expected_revision: r1 },
            InformationDecisionBasis::Outcome { outcome_id: o2, expected_revision: r2 },
        ) => o1 == o2 && r1 == r2,
        (InformationDecisionBasis::Unresolved { reason: t1 }, InformationDecisionBasis::Unresolved { reason: t2 }) => t1@ == t2@,
        _ => false,
    }
}

pub open spec fn same_possibilities(a: Seq<InformationPossibility>, b: Seq<InformationPossibility>) -> bool {
    &&& a.len() == b.len()
    &&& forall|i: int| 0 <= i < a.len() ==> (#[trigger] a[i]).possibility_id@ == b[i].possibility_id@ && a[i].description@ == b[i].description@
}

pub open spec fn same_condition(a: Option<String>, b: Option<String>) -> bool {
    match (a, b) {
        (Some(x), Some(y)) => x@ == y@,
        (None, None) => true,
        _ => false,
    }
}

/// Two opportunities inform the same decision on the same basis over the
/// same possibilities and unknown condition.
pub open spec fn spec_equivalent_decision(left: InformationOpportunityRecord, right: InformationOpportunityRecord) -> bool {
    &&& left.content.decision_id == right.content.decision_id
    &&& same_basis(left.content.decision_basis, right.content.decision_basis)
    &&& same_possibilities(left.content.possibilities@, right.content.possibilities@)
    &&& same_condition(left.content.unknown_condition, right.content.unknown_condition)
}

fn same_basis_exec(a: &InformationDecisionBasis, b: &InformationDecisionBasis) -> (r: bool)
    ensures
        r == same_basis(*a, *b),
{
    match (a, b) {
        (
            InformationDecisionBasis::OwnerDecision { decision_id: d1, expected_revision: r1 },
            InformationDecisionBasis::OwnerDecision { decision_id: d2, expected_revision: r2 },
        ) => *d1 == *d2 && *r1 == *r2,
        (
            InformationDecisionBasis::StrategicFork { strategy_id: s1, expected_strategy_revision: r1, fork_id: f1 },
            InformationDecisionBasis::StrategicFork { strategy_id: s2, expected_strategy_revision: r2, fork_id: f2 },
        ) => *s1 == *s2 && *r1 == *r2 && *f1 == *f2,
        (
            InformationDecisionBasis::Region { region_id: g1, expected_revision: r1 },
            InformationDecisionBasis::Region { region_id: g2, expected_revision: r2 },
        ) => *g1 == *g2 && *r1 == *r2,
        (
            InformationDecisionBasis::Outcome { outcome_id: o1, expected_revision: r1 },
            InformationDecisionBasis::Outcome { outcome_id: o2, expected_revision: r2 },
        ) => *o1 == *o2 && *r1 == *r2,
        (InformationDecisionBasis::Unresolved { reason: t1 }, InformationDecisionBasis::Unresolved { reason: t2 }) => *t1 == *t2,
        _ => false,
    }
}

fn same_possibilities_exec(a: &Vec<InformationPossibility>, b: &Vec<InformationPossibility>) -> (r: bool)
    ensures
        r == same_possibilities(a@, b@),
{
    if a.len() != b.len() {
        return false;
    }
    let mut i: usize = 0;
    while i < a.len()
        invariant
            a@.len() == b@.len(),
            0 <= i <= a@.len(),
            forall|k: int| 0 <= k < i ==> (#[trigger] a@[k]).possibility_id@ == b@[k].possibility_id@ && a@[k].description@ == b@[k].description@,
        decreases a@.len() - i,
    {
        if !(a[i].possibility_id == b[i].possibility_id) || !(a[i].description == b[i].description) {
            return false;
        }
        i = i + 1;
    }
    true
}

/// Whether two opportunities inform the same decision in the same terms.
pub fn equivalent_decision(left: &InformationOpportunityRecord, right: &InformationOpportunityRecord) -> (r: bool)
    ensures
        r == spec_equivalent_decision(*left, *right),
{
    if left.content.decision_id != right.content.decision_id {
        return false;
    }
    if !same_basis_exec(&left.content.decision_basis, &right.content.decision_basis) {
        return false;
    }
    if !same_possibilities_exec(&left.content.possibilities, &right.content.possibilities) {
        return false;
    }
    match (&left.content.unknown_condition, &right.content.unknown_condition) {
        (Some(x), Some(y)) => *x == *y,
        (None, None) => true,
        _ => false,
    }
}

pub open spec fn names_text(v: Seq<String>, t: Seq<char>) -> bool {
    exists|i: int| 0 <= i < v.len() && (#[trigger] v[i])@ == t
}

/// The candidate decisively distinguishes at least what the target does, for
/// the same decision.
pub open spec fn spec_decisive_superset(candidate: InformationOpportunityRecord, target: InformationOpportunityRecord) -> bool {
    match (candidate.content.observation_power, target.content.observation_power) {
        (ObservationPower::Decisive { distinguishes: left }, ObservationPower::Decisive { distinguishes: right }) => {
            spec_equivalent_decision(candidate, target) && forall|i: int| 0 <= i < right@.len() ==> names_text(left@, (#[trigger] right@[i])@)
        },
        (ObservationPower::Decisive { .. }, ObservationPower::Informative) => spec_equivalent_decision(candidate, target),
        _ => false,
    }
}

fn names_text_exec(v: &Vec<String>, t: &String) -> (r: bool)
    ensures
        r == names_text(v@, t@),
{
    let mut i: usize = 0;
    while i < v.len()
        invariant
            0 <= i <= v@.len(),
            forall|k: int| 0 <= k < i ==> (#[trigger] v@[k])@ != t@,
        decreases v@.len() - i,
    {
        if v[i] == *t {
            return true;
        }
        i = i + 1;
    }
    false
}

/// Whether the candidate's observation decides everything the target's does.
#[verifier::loop_isolation(false)]
pub fn decisive_superset(candidate: &InformationOpportunityRecord, target: &InformationOpportunityRecord) -> (r: bool)
    ensures
        r == spec_decisive_superset(*candidate, *target),
{
    match (&candidate.content.observation_power, &target.content.observation_power) {
        (ObservationPower::Decisive { distinguishes: left }, ObservationPower::Decisive { distinguishes: right }) => {
            if !equivalent_decision(candidate, target) {
                return false;
            }
            let mut i: usize = 0;
            while i < right.len()
                invariant
                    0 <= i <= right@.len(),
                    forall|k: int| 0 <= k < i ==> names_text(left@, (#[trigger] right@[k])@),
                decreases right@.len() - i,
            {
                if !names_text_exec(left, &right[i]) {
                    return false;
                }
                i = i + 1;
            }
            true
        },
        (ObservationPower::Decisive { .. }, ObservationPower::Informative) => equivalent_decision(candidate, target),
        _ => false,
    }
}

/// Agent-hour and elapsed dominance; `None` when a needed sum is refused.
/// The elapsed sums are consulted only when the agent hours dominate.
pub open spec fn spec_costs_dominate(candidate: InformationCosts, target: InformationCosts) -> Option<bool> {
    match (interval_sum(candidate.agent_parts()), interval_sum(target.agent_parts())) {
        (Some(ca), Some(ta)) => if !spec_interval_dominates(ca, ta) {
            Some(false)
        } else {
            match (interval_sum(candidate.elapsed_parts()), interval_sum(target.elapsed_parts())) {
                (Some(ce), Some(te)) => Some(spec_interval_dominates(ce, te)),
                _ => None,
            }
        },
        _ => None,
    }
}

/// Dominance in both totals and strict improvement in at least one.
pub open spec fn spec_costs_strictly_dominate(candidate: InformationCosts, target: InformationCosts) -> Option<bool> {
    match (
        interval_sum(candidate.agent_parts()),
        interval_sum(target.agent_parts()),
        interval_sum(candidate.elapsed_parts()),
        interval_sum(target.elapsed_parts()),
    ) {
        (Some(ca), Some(ta), Some(ce), Some(te)) => Some(
            spec_interval_dominates(ca, ta) && spec_interval_dominates(ce, te) && (option_below(ca.high, ta.low) || option_below(ce.high, te.low)),
        ),
        _ => None,
    }
}

pub fn costs_dominate(candidate: &InformationOpportunityRecord, target: &InformationOpportunityRecord) -> (r: Result<bool, ZapError>)
    ensures
        r is Ok <==> spec_costs_dominate(candidate.content.costs, target.content.costs) is Some,
        r matches Ok(b) ==> spec_costs_dominate(candidate.content.costs, target.content.costs) == Some(b),
        r matches Err(e) ==> e.code == ErrorCode::InvalidValue,
{
    let ca = candidate.content.costs.agent_hours()?;
    let ta = target.content.costs.agent_hours()?;
    if !interval_dominates(ca, ta) {
        return Ok(false);
    }
    let ce = candidate.content.costs.elapsed()?;
    let te = target.content.costs.elapsed()?;
    Ok(interval_dominates(ce, te))
}

pub fn costs_strictly_dominate(candidate: &InformationOpportunityRecord, target: &InformationOpportunityRecord) -> (r: Result<bool, ZapError>)
    ensures
        r is Ok <==> spec_costs_strictly_dominate(candidate.content.costs, target.content.costs) is Some,
        r matches Ok(b) ==> spec_costs_strictly_dominate(candidate.content.costs, target.content.costs) == Some(b),
        r matches Err(e) ==> e.code == ErrorCode::InvalidValue,
{
    let candidate_agent = candidate.content.costs.agent_hours()?;
    let target_agent = target.content.costs.agent_hours()?;
    let candidate_elapsed = candidate.content.costs.elapsed()?;
    let target_elapsed = target.content.costs.elapsed()?;
    Ok(interval_dominates(candidate_agent, target_agent) && interval_dominates(candidate_elapsed, target_elapsed) && (
    option_below_exec(candidate_agent.high, target_agent.low) || option_below_exec(candidate_elapsed.high, target_elapsed.low)))
}

/// For benefits in the same unit, the candidate's lowest benefit reaches the
/// target's highest.
pub open spec fn spec_benefits_dominate(candidate: DecisionBenefit, target: DecisionBenefit) -> bool {
    match (candidate, target) {
        (DecisionBenefit::AvoidedAgentHours { range: left, .. }, DecisionBenefit::AvoidedAgentHours { range: right, .. }) => right.high matches Some(
            h,
        ) && left.low.0 >= h.0,
        (DecisionBenefit::AvoidedElapsedHours { range: left, .. }, DecisionBenefit::AvoidedElapsedHours { range: right, .. }) => right.high matches Some(
            h,
        ) && left.low.0 >= h.0,
        _ => false,
    }
}

pub open spec fn spec_benefits_strictly_dominate(candidate: DecisionBenefit, target: DecisionBenefit) -> bool {
    match (candidate, target) {
        (DecisionBenefit::AvoidedAgentHours { range: left, .. }, DecisionBenefit::AvoidedAgentHours { range: right, .. }) => right.high matches Some(
            h,
        ) && left.low.0 > h.0,
        (DecisionBenefit::AvoidedElapsedHours { range: left, .. }, DecisionBenefit::AvoidedElapsedHours { range: right, .. }) => right.high matches Some(
            h,
        ) && left.low.0 > h.0,
        _ => false,
    }
}

pub fn benefits_dominate(candidate: &InformationOpportunityRecord, target: &InformationOpportunityRecord) -> (r: Result<bool, ZapError>)
    ensures
        r == Ok::<bool, ZapError>(spec_benefits_dominate(candidate.content.benefit, target.content.benefit)),
{
    match (&candidate.content.benefit, &target.content.benefit) {
        (DecisionBenefit::AvoidedAgentHours { range: left, .. }, DecisionBenefit::AvoidedAgentHours { range: right, .. })
        | (DecisionBenefit::AvoidedElapsedHours { range: left, .. }, DecisionBenefit::AvoidedElapsedHours { range: right, .. }) => {
            Ok(match right.high {
                Some(h) => left.low.0 >= h.0,
                None => false,
            })
        },
        _ => Ok(false),
    }
}

pub fn benefits_strictly_dominate(candidate: &InformationOpportunityRecord, target: &InformationOpportunityRecord) -> (r: Result<bool, ZapError>)
    ensures
        r == Ok::<bool, ZapError>(spec_benefits_strictly_dominate(candidate.content.benefit, target.content.benefit)),
{
    match (&candidate.content.benefit, &target.content.benefit) {
        (DecisionBenefit::AvoidedAgentHours { range: left, .. }, DecisionBenefit::AvoidedAgentHours { range: right, .. })
        | (DecisionBenefit::AvoidedElapsedHours { range: left, .. }, DecisionBenefit::AvoidedElapsedHours { range: right, .. }) => {
            Ok(match right.high {
                Some(h) => left.low.0 > h.0,
                None => false,
            })
        },
        _ => Ok(false),
    }
}

/// Strict cost dominance implies dominance.
pub proof fn law_strict_cost_dominance_implies_dominance(candidate: InformationCosts, target: InformationCosts)
    requires
        spec_costs_strictly_dominate(candidate, target) == Some(true),
    ensures
        spec_costs_dominate(candidate, target) == Some(true),
{
}

/// Strict benefit dominance implies dominance.
pub proof fn law_strict_benefit_dominance_implies_dominance(candidate: DecisionBenefit, target: DecisionBenefit)
    requires
        spec_benefits_strictly_dominate(candidate, target),
    ensures
        spec_benefits_dominate(candidate, target),
{
}

/// Interval dominance is transitive over well-ordered intervals.
pub proof fn law_interval_dominance_transitive(a: HoursInterval, b: HoursInterval, c: HoursInterval)
    requires
        spec_interval_dominates(a, b),
        spec_interval_dominates(b, c),
        interval_ordered(b.low, b.high),
    ensures
        spec_interval_dominates(a, c),
{
}

/// No well-ordered interval with a finite upper bound above its lower bound
/// dominates itself.
pub proof fn law_interval_dominance_irreflexive_when_wide(a: HoursInterval)
    requires
        a.high matches Some(h) && h.0 > a.low.0,
    ensures
        !spec_interval_dominates(a, a),
{
}

} // verus!

verus! {

pub open spec fn any_inapplicable(sources: Seq<InformationSourceBinding>) -> bool {
    exists|i: int| 0 <= i < sources.len() && (#[trigger] sources[i]).applicability != SourceApplicabilityStatus::Applicable
}

/// What comparing the opportunity with one peer decides.
pub ghost enum PeerStep {
    Skip,
    Cheaper,
    Dominated,
    Pass,
    Fail,
}

/// One peer against the opportunity: a stale, materially unknown or
/// inapplicable peer (or the opportunity itself) is skipped; a decisive
/// superset at strictly lower cost makes the opportunity a cheaper-decisive
/// case; an equivalent peer whose benefit and cost dominate, one of them
/// strictly, dominates it.
pub open spec fn peer_step(opp: InformationOpportunityRecord, peer: InformationOpportunityRecord, fresh: OpportunityFreshness) -> PeerStep {
    if peer.opportunity_id == opp.opportunity_id || fresh != OpportunityFreshness::Current || peer.content.costs.spec_materially_unknown()
        || any_inapplicable(peer.content.sources@) {
        PeerStep::Skip
    } else if spec_decisive_superset(peer, opp) && spec_costs_strictly_dominate(peer.content.costs, opp.content.costs) is None {
        PeerStep::Fail
    } else if spec_decisive_superset(peer, opp) && spec_costs_strictly_dominate(peer.content.costs, opp.content.costs) == Some(true) {
        PeerStep::Cheaper
    } else if !(spec_equivalent_decision(peer, opp) && spec_benefits_dominate(peer.content.benefit, opp.content.benefit)) {
        PeerStep::Pass
    } else {
        match spec_costs_dominate(peer.content.costs, opp.content.costs) {
            None => PeerStep::Fail,
            Some(false) => PeerStep::Pass,
            Some(true) => if spec_benefits_strictly_dominate(peer.content.benefit, opp.content.benefit) {
                PeerStep::Dominated
            } else {
                match spec_costs_strictly_dominate(peer.content.costs, opp.content.costs) {
                    None => PeerStep::Fail,
                    Some(true) => PeerStep::Dominated,
                    Some(false) => PeerStep::Pass,
                }
            },
        }
    }
}

/// A peer makes the opportunity a cheaper-decisive case only when it is
/// another, current, fully bounded and applicable opportunity that decides
/// everything the opportunity decides at strictly lower cost; it dominates
/// the opportunity only when it is such a peer with an equivalent decision,
/// dominating benefit and dominating cost, one of the two strictly.
pub proof fn law_peer_outcomes(opp: InformationOpportunityRecord, peer: InformationOpportunityRecord, fresh: OpportunityFreshness)
    ensures
        peer_step(opp, peer, fresh) == PeerStep::Cheaper || peer_step(opp, peer, fresh) == PeerStep::Dominated ==> {
            &&& peer.opportunity_id != opp.opportunity_id
            &&& fresh == OpportunityFreshness::Current
            &&& !peer.content.costs.spec_materially_unknown()
            &&& forall|i: int| 0 <= i < peer.content.sources@.len()
                ==> (#[trigger] peer.content.sources@[i]).applicability == SourceApplicabilityStatus::Applicable
        },
        peer_step(opp, peer, fresh) == PeerStep::Cheaper ==> spec_decisive_superset(peer, opp)
            && spec_costs_strictly_dominate(peer.content.costs, opp.content.costs) == Some(true),
        peer_step(opp, peer, fresh) == PeerStep::Dominated ==> {
            &&& spec_equivalent_decision(peer, opp)
            &&& spec_benefits_dominate(peer.content.benefit, opp.content.benefit)
            &&& spec_costs_dominate(peer.content.costs, opp.content.costs) == Some(true)
            &&& (spec_benefits_strictly_dominate(peer.content.benefit, opp.content.benefit)
                || spec_costs_strictly_dominate(peer.content.costs, opp.content.costs) == Some(true))
        },
{
}

pub ghost enum PeerDecision {
    Continue,
    Cheaper(InformationOpportunityId),
    Dominated(InformationOpportunityId),
    Fail,
}

/// The first peer, from `i` on, that decides the recommendation.
pub open spec fn peer_scan(
    opp: InformationOpportunityRecord,
    peers: Seq<InformationOpportunityRecord>,
    fresh: Seq<OpportunityFreshness>,
    i: int,
) -> PeerDecision
    decreases peers.len() - i,
{
    if i < 0 || i >= peers.len() {
        PeerDecision::Continue
    } else {
        match peer_step(opp, peers[i], fresh[i]) {
            PeerStep::Cheaper => PeerDecision::Cheaper(peers[i].opportunity_id),
            PeerStep::Dominated => PeerDecision::Dominated(peers[i].opportunity_id),
            PeerStep::Fail => PeerDecision::Fail,
            _ => peer_scan(opp, peers, fresh, i + 1),
        }
    }
}

pub ghost struct RecOutcome {
    pub kind: InformationRecommendationKind,
    pub reason: Seq<char>,
    pub preferred: Option<InformationOpportunityId>,
    pub work: Option<WorkId>,
    pub evidence: Seq<EvidenceId>,
    pub proof_cost: InformationProofValidationCost,
}

pub open spec fn outcome(
    kind: InformationRecommendationKind,
    reason: Seq<char>,
    preferred: Option<InformationOpportunityId>,
    work: Option<WorkId>,
    evidence: Seq<EvidenceId>,
    proof_cost: InformationProofValidationCost,
) -> RecOutcome {
    RecOutcome { kind, reason, preferred, work, evidence, proof_cost }
}

/// The selection record still binds this exact opportunity revision.
pub open spec fn selection_current(opp: InformationOpportunityRecord, s: InformationSelectionRecord) -> bool {
    &&& s.opportunity_revision == opp.revision
    &&& s.opportunity_fingerprint == opp.semantic_fingerprint
    &&& s.basis_fingerprint == opp.basis_fingerprint
}

/// The recommendation after the peers: compare the declared benefit range
/// with the compatible cost total.
pub open spec fn value_outcome(opp: InformationOpportunityRecord, evidence: Seq<EvidenceId>, cost: InformationProofValidationCost) -> Result<RecOutcome, ErrorCode> {
    let (total, range) = match opp.content.benefit {
        DecisionBenefit::AvoidedAgentHours { range, .. } => (interval_sum(opp.content.costs.agent_parts()), range),
        DecisionBenefit::AvoidedElapsedHours { range, .. } => (interval_sum(opp.content.costs.elapsed_parts()), range),
        DecisionBenefit::Unknown { .. } => (None, HoursInterval { low: HoursMicros(0), high: None }),
    };
    if opp.content.benefit is Unknown {
        Ok(outcome(InformationRecommendationKind::Unknown, "decision improvement is explicitly unknown"@, None, None, evidence, cost))
    } else {
        match total {
            None => Err(ErrorCode::InvalidValue),
            Some(c) => if range.high matches Some(bh) && bh.0 <= c.low.0 {
                Ok(outcome(
                    InformationRecommendationKind::NotWorthwhile,
                    "even the highest declared decision improvement does not exceed the lowest compatible cost"@,
                    None,
                    None,
                    evidence,
                    cost,
                ))
            } else if c.high matches Some(ch) && range.low.0 > ch.0 {
                Ok(outcome(
                    InformationRecommendationKind::Worthwhile,
                    "the lowest declared decision improvement exceeds the highest compatible bounded cost"@,
                    None,
                    None,
                    evidence,
                    cost,
                ))
            } else {
                Ok(outcome(
                    InformationRecommendationKind::Unknown,
                    "decision benefit and compatible cost ranges overlap or lack a finite upper bound"@,
                    None,
                    None,
                    evidence,
                    cost,
                ))
            },
        }
    }
}

/// The recommendation ladder once proof reuse did not settle it.
pub open spec fn later_outcome(
    opp: InformationOpportunityRecord,
    peers: Seq<InformationOpportunityRecord>,
    fresh: Seq<OpportunityFreshness>,
    selected: Option<InformationSelectionRecord>,
    evidence: Seq<EvidenceId>,
    cost: InformationProofValidationCost,
) -> Result<RecOutcome, ErrorCode> {
    if selected matches Some(s) && selection_current(opp, s) {
        Ok(outcome(
            InformationRecommendationKind::AlreadySelected,
            "the opportunity already has one stable proposed Work binding"@,
            None,
            Some(selected->0.candidate_work_id),
            evidence,
            cost,
        ))
    } else if opp.content.costs.spec_materially_unknown() {
        Ok(outcome(
            InformationRecommendationKind::Unknown,
            "a material acquisition, verification, delay, or coordination bound is unknown"@,
            None,
            None,
            evidence,
            cost,
        ))
    } else {
        match peer_scan(opp, peers, fresh, 0) {
            PeerDecision::Fail => Err(ErrorCode::InvalidValue),
            PeerDecision::Cheaper(id) => Ok(outcome(
                InformationRecommendationKind::CheaperDecisive,
                "another current observation is decisively informative at strictly lower bounded cost"@,
                Some(id),
                None,
                evidence,
                cost,
            )),
            PeerDecision::Dominated(id) => Ok(outcome(
                InformationRecommendationKind::Dominated,
                "another current opportunity dominates the declared benefit and cost ranges"@,
                Some(id),
                None,
                evidence,
                cost,
            )),
            PeerDecision::Continue => value_outcome(opp, evidence, cost),
        }
    }
}

/// The whole recommendation, or the error code that refuses it.
pub open spec fn recommendation_outcome(
    opp: InformationOpportunityRecord,
    peers: Seq<InformationOpportunityRecord>,
    freshness: OpportunityFreshness,
    fresh: Seq<OpportunityFreshness>,
    selected: Option<InformationSelectionRecord>,
    proof_set: Option<CurrentProofSet>,
) -> Result<RecOutcome, ErrorCode> {
    if freshness != OpportunityFreshness::Current {
        Ok(outcome(
            InformationRecommendationKind::Unknown,
            "decision or source applicability changed and requires reconsideration"@,
            None,
            None,
            Seq::empty(),
            InformationProofValidationCost::NotUsed,
        ))
    } else if any_inapplicable(opp.content.sources@) {
        Ok(outcome(
            InformationRecommendationKind::Unknown,
            "one or more information sources lack established current applicability"@,
            None,
            None,
            Seq::empty(),
            InformationProofValidationCost::NotUsed,
        ))
    } else if opp.content.satisfying_evidence_ids@.len() > 0 {
        let cost = InformationProofValidationCost::StoreWideCurrentProofContextScan {
            requested_evidence: opp.content.satisfying_evidence_ids@.len() as u32,
        };
        match proof_set {
            None => Err(ErrorCode::InternalInvariant),
            Some(set) => {
                let reusable = reusable_evidence(opp, set.rows@);
                if reusable.len() > 0 {
                    Ok(outcome(
                        InformationRecommendationKind::AlreadySatisfied,
                        "the existing current-proof graph validates retained evidence for this source-bound observation"@,
                        None,
                        None,
                        reusable,
                        cost,
                    ))
                } else {
                    later_outcome(opp, peers, fresh, selected, reusable, cost)
                }
            },
        }
    } else {
        later_outcome(opp, peers, fresh, selected, Seq::empty(), InformationProofValidationCost::NotUsed)
    }
}

/// An opportunity is recommended as already satisfied only when it is
/// current with every source applicable, and the evidence it reports is
/// retained evidence that the current-proof graph validates (see
/// `law_reusable_evidence_covers_every_source`), at least one item of it.
pub proof fn law_already_satisfied_rests_on_reusable_evidence(
    opp: InformationOpportunityRecord,
    peers: Seq<InformationOpportunityRecord>,
    freshness: OpportunityFreshness,
    fresh: Seq<OpportunityFreshness>,
    selected: Option<InformationSelectionRecord>,
    proof_set: Option<CurrentProofSet>,
)
    ensures
        ({
            let r = recommendation_outcome(opp, peers, freshness, fresh, selected, proof_set);
            r is Ok && r->Ok_0.kind == InformationRecommendationKind::AlreadySatisfied ==> {
                &&& freshness == OpportunityFreshness::Current
                &&& !any_inapplicable(opp.content.sources@)
                &&& r->Ok_0.evidence.len() > 0
                &&& proof_set is Some
                &&& forall|k: int| 0 <= k < r->Ok_0.evidence.len()
                    ==> reusable_evidence(opp, proof_set->0.rows@).contains(#[trigger] r->Ok_0.evidence[k])
            }
        }),
{
    let r = recommendation_outcome(opp, peers, freshness, fresh, selected, proof_set);
    if r is Ok && r->Ok_0.kind == InformationRecommendationKind::AlreadySatisfied && proof_set is Some {
        let ev = reusable_evidence(opp, proof_set->0.rows@);
        assert forall|k: int| 0 <= k < r->Ok_0.evidence.len() implies ev.contains(#[trigger] r->Ok_0.evidence[k]) by {
            if r->Ok_0.evidence == ev {
                assert(ev[k] == r->Ok_0.evidence[k]);
            }
        }
    }
}

/// A recommendation carries the outcome and the opportunity's identity,
/// revision, fingerprints and exact basis-evaluation cost.
pub open spec fn recommendation_is(rec: InformationRecommendation, opp: InformationOpportunityRecord, o: RecOutcome) -> bool {
    &&& rec.opportunity_id == opp.opportunity_id
    &&& rec.kind == o.kind
    &&& rec.reason@ == o.reason
    &&& rec.preferred_opportunity_id == o.preferred
    &&& rec.reusable_work_id == o.work
    &&& rec.reusable_evidence_ids@ == o.evidence
    &&& rec.proof_validation_cost == o.proof_cost
    &&& rec.basis_evaluation_cost == InformationBasisEvaluationCost {
        exact_decision_records: 1,
        exact_source_records: opp.content.sources@.len() as u32,
        exact_applicability_records: opp.content.sources@.len() as u32,
        exact_region_records: opp.content.regions@.len() as u32,
    }
    &&& rec.opportunity_revision == opp.revision
    &&& rec.opportunity_fingerprint == opp.semantic_fingerprint
    &&& rec.basis_fingerprint == opp.basis_fingerprint
}

fn build_recommendation(
    opportunity: &InformationOpportunityRecord,
    kind: InformationRecommendationKind,
    reason: &str,
    preferred_opportunity_id: Option<InformationOpportunityId>,
    reusable_work_id: Option<WorkId>,
    reusable_evidence_ids: Vec<EvidenceId>,
    proof_validation_cost: InformationProofValidationCost,
) -> (r: InformationRecommendation)
    ensures
        recommendation_is(
            r,
            *opportunity,
            outcome(kind, reason@, preferred_opportunity_id, reusable_work_id, reusable_evidence_ids@, proof_validation_cost),
        ),
{
    InformationRecommendation {
        opportunity_id: opportunity.opportunity_id,
        kind,
        reason: reason.to_owned(),
        preferred_opportunity_id,
        reusable_work_id,
        reusable_evidence_ids,
        proof_validation_cost,
        basis_evaluation_cost: InformationBasisEvaluationCost {
            exact_decision_records: 1,
            exact_source_records: opportunity.content.sources.len() as u32,
            exact_applicability_records: opportunity.content.sources.len() as u32,
            exact_region_records: opportunity.content.regions.len() as u32,
        },
        opportunity_revision: opportunity.revision,
        opportunity_fingerprint: opportunity.semantic_fingerprint,
        basis_fingerprint: opportunity.basis_fingerprint,
    }
}

fn inapplicable_exec(sources: &Vec<InformationSourceBinding>) -> (r: bool)
    ensures
        r == any_inapplicable(sources@),
{
    let mut i: usize = 0;
    while i < sources.len()
        invariant
            0 <= i <= sources@.len(),
            forall|k: int| 0 <= k < i ==> (#[trigger] sources@[k]).applicability == SourceApplicabilityStatus::Applicable,
        decreases sources@.len() - i,
    {
        if sources[i].applicability != SourceApplicabilityStatus::Applicable {
            return true;
        }
        i = i + 1;
    }
    false
}

fn peer_step_exec(opp: &InformationOpportunityRecord, peer: &InformationOpportunityRecord, fresh: OpportunityFreshness) -> (r: PeerChoice)
    ensures
        match peer_step(*opp, *peer, fresh) {
            PeerStep::Skip | PeerStep::Pass => r == PeerChoice::Next,
            PeerStep::Cheaper => r == PeerChoice::Cheaper,
            PeerStep::Dominated => r == PeerChoice::Dominated,
            PeerStep::Fail => r == PeerChoice::Fail,
        },
{
    if peer.opportunity_id == opp.opportunity_id || fresh != OpportunityFreshness::Current || peer.content.costs.materially_unknown()
        || inapplicable_exec(&peer.content.sources) {
        return PeerChoice::Next;
    }
    if decisive_superset(peer, opp) {
        match costs_strictly_dominate(peer, opp) {
            Err(_) => return PeerChoice::Fail,
            Ok(true) => return PeerChoice::Cheaper,
            Ok(false) => {},
        }
    }
    if !equivalent_decision(peer, opp) {
        return PeerChoice::Next;
    }
    match benefits_dominate(peer, opp) {
        Ok(true) => {},
        _ => return PeerChoice::Next,
    }
    match costs_dominate(peer, opp) {
        Err(_) => return PeerChoice::Fail,
        Ok(false) => return PeerChoice::Next,
        Ok(true) => {},
    }
    match benefits_strictly_dominate(peer, opp) {
        Ok(true) => return PeerChoice::Dominated,
        _ => {},
    }
    match costs_strictly_dominate(peer, opp) {
        Err(_) => PeerChoice::Fail,
        Ok(true) => PeerChoice::Dominated,
        Ok(false) => PeerChoice::Next,
    }
}

#[derive(Clone, Copy, PartialEq, Eq, Structural)]
enum PeerChoice {
    Next,
    Cheaper,
    Dominated,
    Fail,
}

#[verifier::loop_isolation(false)]
fn later_recommendation(
    opportunity: &InformationOpportunityRecord,
    peers: &[InformationOpportunityRecord],
    peer_freshness: &[OpportunityFreshness],
    selected: Option<&InformationSelectionRecord>,
    evidence: Vec<EvidenceId>,
    cost: InformationProofValidationCost,
) -> (r: Result<InformationRecommendation, ZapError>)
    requires
        peer_freshness@.len() == peers@.len(),
    ensures
        match later_outcome(*opportunity, peers@, peer_freshness@, match selected { Some(s) => Some(*s), None => None }, evidence@, cost) {
            Ok(o) => r matches Ok(rec) && recommendation_is(rec, *opportunity, o),
            Err(c) => r matches Err(e) && e.code == c,
        },
{
    match selected {
        Some(selection) => {
            if selection.opportunity_revision == opportunity.revision && selection.opportunity_fingerprint == opportunity.semantic_fingerprint
                && selection.basis_fingerprint == opportunity.basis_fingerprint {
                return Ok(build_recommendation(
                    opportunity,
                    InformationRecommendationKind::AlreadySelected,
                    "the opportunity already has one stable proposed Work binding",
                    None,
                    Some(selection.candidate_work_id),
                    evidence,
                    cost,
                ));
            }
        },
        None => {},
    }
    if opportunity.content.costs.materially_unknown() {
        return Ok(build_recommendation(
            opportunity,
            InformationRecommendationKind::Unknown,
            "a material acquisition, verification, delay, or coordination bound is unknown",
            None,
            None,
            evidence,
            cost,
        ));
    }
    let mut i: usize = 0;
    while i < peers.len()
        invariant
            0 <= i <= peers@.len(),
            peer_freshness@.len() == peers@.len(),
            peer_scan(*opportunity, peers@, peer_freshness@, 0) == peer_scan(*opportunity, peers@, peer_freshness@, i as int),
        decreases peers@.len() - i,
    {
        match peer_step_exec(opportunity, &peers[i], peer_freshness[i]) {
            PeerChoice::Fail => return Err(ZapError::new(ErrorCode::InvalidValue)),
            PeerChoice::Cheaper => {
                return Ok(build_recommendation(
                    opportunity,
                    InformationRecommendationKind::CheaperDecisive,
                    "another current observation is decisively informative at strictly lower bounded cost",
                    Some(peers[i].opportunity_id),
                    None,
                    evidence,
                    cost,
                ));
            },
            PeerChoice::Dominated => {
                return Ok(build_recommendation(
                    opportunity,
                    InformationRecommendationKind::Dominated,
                    "another current opportunity dominates the declared benefit and cost ranges",
                    Some(peers[i].opportunity_id),
                    None,
                    evidence,
                    cost,
                ));
            },
            PeerChoice::Next => {},
        }
        i = i + 1;
    }
    let total = match &opportunity.content.benefit {
        DecisionBenefit::AvoidedAgentHours { .. } => opportunity.content.costs.agent_hours()?,
        DecisionBenefit::AvoidedElapsedHours { .. } => opportunity.content.costs.elapsed()?,
        DecisionBenefit::Unknown { .. } => {
            return Ok(build_recommendation(
                opportunity,
                InformationRecommendationKind::Unknown,
                "decision improvement is explicitly unknown",
                None,
                None,
                evidence,
                cost,
            ));
        },
    };
    let range = match &opportunity.content.benefit {
        DecisionBenefit::AvoidedAgentHours { range, .. } | DecisionBenefit::AvoidedElapsedHours { range, .. } => *range,
        DecisionBenefit::Unknown { .. } => HoursInterval { low: HoursMicros(0), high: None },
    };
    let not_worth = match range.high {
        Some(bh) => bh.0 <= total.low.0,
        None => false,
    };
    if not_worth {
        return Ok(build_recommendation(
            opportunity,
            InformationRecommendationKind::NotWorthwhile,
            "even the highest declared decision improvement does not exceed the lowest compatible cost",
            None,
            None,
            evidence,
            cost,
        ));
    }
    let worth = match total.high {
        Some(ch) => range.low.0 > ch.0,
        None => false,
    };
    if worth {
        return Ok(build_recommendation(
            opportunity,
            InformationRecommendationKind::Worthwhile,
            "the lowest declared decision improvement exceeds the highest compatible bounded cost",
            None,
            None,
            evidence,
            cost,
        ));
    }
    Ok(build_recommendation(
        opportunity,
        InformationRecommendationKind::Unknown,
        "decision benefit and compatible cost ranges overlap or lack a finite upper bound",
        None,
        None,
        evidence,
        cost,
    ))
}

/// Recommends whether an information opportunity is worth acquiring, given
/// its own freshness, its peers (opportunities for the same decision) with
/// their freshness, its current selection and, when it names reusable
/// evidence, the current-proof graph.
pub fn recommend_opportunity(
    opportunity: &InformationOpportunityRecord,
    peers: &[InformationOpportunityRecord],
    freshness: OpportunityFreshness,
    peer_freshness: &[OpportunityFreshness],
    selected: Option<&InformationSelectionRecord>,
    proof_set: Option<&CurrentProofSet>,
) -> (r: Result<InformationRecommendation, ZapError>)
    requires
        peer_freshness@.len() == peers@.len(),
    ensures
        match recommendation_outcome(
            *opportunity,
            peers@,
            freshness,
            peer_freshness@,
            match selected { Some(s) => Some(*s), None => None },
            match proof_set { Some(p) => Some(*p), None => None },
        ) {
            Ok(o) => r matches Ok(rec) && recommendation_is(rec, *opportunity, o),
            Err(c) => r matches Err(e) && e.code == c,
        },
{
    if freshness != OpportunityFreshness::Current {
        return Ok(build_recommendation(
            opportunity,
            InformationRecommendationKind::Unknown,
            "decision or source applicability changed and requires reconsideration",
            None,
            None,
            Vec::new(),
            InformationProofValidationCost::NotUsed,
        ));
    }
    if inapplicable_exec(&opportunity.content.sources) {
        return Ok(build_recommendation(
            opportunity,
            InformationRecommendationKind::Unknown,
            "one or more information sources lack established current applicability",
            None,
            None,
            Vec::new(),
            InformationProofValidationCost::NotUsed,
        ));
    }
    if opportunity.content.satisfying_evidence_ids.len() > 0 {
        let cost = InformationProofValidationCost::StoreWideCurrentProofContextScan {
            requested_evidence: opportunity.content.satisfying_evidence_ids.len() as u32,
        };
        let set = match proof_set {
            Some(set) => set,
            None => return Err(ZapError::new(ErrorCode::InternalInvariant)),
        };
        let reusable = current_reusable_evidence(opportunity, set);
        if reusable.len() > 0 {
            return Ok(build_recommendation(
                opportunity,
                InformationRecommendationKind::AlreadySatisfied,
                "the existing current-proof graph validates retained evidence for this source-bound observation",
                None,
                None,
                reusable,
                cost,
            ));
        }
        return later_recommendation(opportunity, peers, peer_freshness, selected, reusable, cost);
    }
    later_recommendation(opportunity, peers, peer_freshness, selected, Vec::new(), InformationProofValidationCost::NotUsed)
}

} // verus!
