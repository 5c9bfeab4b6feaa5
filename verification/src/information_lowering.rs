//! Binding selected information opportunities into a lowering, and the
//! execution context that a selected opportunity hands to its worker.
use vstd::prelude::*;

use crate::error::{ErrorCode, ZapError};
use crate::ids::{DigestValue, EvidenceId, InformationOpportunityId, InformationSelectionId, SourceId, WorkId};
use crate::information::{
    selection_current, HoursMicros, InformationOpportunityRecord, InformationSelectionRecord, InformationStopEnforcement,
    InformationStopRule, SourceCapture,
};
use crate::keyed::copy_items;
use crate::packets::WorkType;
use crate::text::{blank, blank_text};
use vstd::string::StrSliceExecFns;
use vstd::string::StringExecFns;

verus! {

/// Research lowered from an information opportunity is Evidence or
/// Decision work.
pub open spec fn spec_allowed_work_type(t: WorkType) -> bool {
    t == WorkType::Evidence || t == WorkType::Decision
}

pub fn allowed_work_type(t: WorkType) -> (r: bool)
    ensures
        r == spec_allowed_work_type(t),
{
    match t {
        WorkType::Evidence | WorkType::Decision => true,
        _ => false,
    }
}

/// A stored opportunity with the basis fingerprint recomputed from the
/// current store.
pub struct CurrentOpportunity<'a> {
    pub record: &'a InformationOpportunityRecord,
    pub current_basis: DigestValue,
}

/// The stored type of an existing work.
#[derive(Clone, Copy, Debug, PartialEq, Eq, Structural)]
pub struct StoredWorkType {
    pub work_id: WorkId,
    pub work_type: WorkType,
}

/// What binding information into a lowering reads of the store.
pub struct InformationStore<'a> {
    pub selections: &'a [InformationSelectionRecord],
    pub opportunities: &'a [CurrentOpportunity<'a>],
    pub works: &'a [StoredWorkType],
}

/// A lowered work that executes a selection.
#[derive(Clone, Copy, Debug, PartialEq, Eq, Structural)]
pub struct InformationLoweringBinding {
    pub selection_id: InformationSelectionId,
    pub work_id: WorkId,
    pub work_type: WorkType,
}

/// The first stored selection with this identity.
pub open spec fn selection_of(s: Seq<InformationSelectionRecord>, id: InformationSelectionId) -> Option<InformationSelectionRecord>
    decreases s.len(),
{
    if s.len() == 0 {
        None
    } else if s[0].selection_id == id {
        Some(s[0])
    } else {
        selection_of(s.drop_first(), id)
    }
}

fn find_selection(s: &[InformationSelectionRecord], id: InformationSelectionId) -> (r: Option<InformationSelectionRecord>)
    ensures
        r == selection_of(s@, id),
{
    let ghost v = s@;
    let mut i: usize = 0;
    assert(v.skip(0) =~= v);
    while i < s.len()
        invariant
            i <= v.len(),
            v == s@,
            selection_of(v.skip(i as int), id) == selection_of(v, id),
        decreases v.len() - i,
    {
        assert(v.skip(i as int).drop_first() =~= v.skip(i as int + 1));
        if s[i].selection_id.0 == id.0 {
            return Some(s[i]);
        }
        i += 1;
    }
    None
}

/// `i` is the first position of an opportunity with this identity.
pub open spec fn first_opportunity_at(s: Seq<CurrentOpportunity>, id: InformationOpportunityId, i: int) -> bool {
    &&& 0 <= i < s.len()
    &&& s[i].record.opportunity_id == id
    &&& forall|j: int| 0 <= j < i ==> (#[trigger] s[j]).record.opportunity_id != id
}

/// The position of the first stored opportunity with this identity.
pub open spec fn opportunity_index(s: Seq<CurrentOpportunity>, id: InformationOpportunityId) -> Option<int> {
    if exists|i: int| first_opportunity_at(s, id, i) {
        Some(choose|i: int| first_opportunity_at(s, id, i))
    } else {
        None
    }
}

fn find_opportunity(s: &[CurrentOpportunity], id: InformationOpportunityId) -> (r: Option<usize>)
    ensures
        match opportunity_index(s@, id) {
            Some(i) => r == Some(i as usize),
            None => r is None,
        },
{
    let mut i: usize = 0;
    while i < s.len()
        invariant
            i <= s@.len(),
            forall|j: int| 0 <= j < i ==> (#[trigger] s@[j]).record.opportunity_id != id,
        decreases s@.len() - i,
    {
        if s[i].record.opportunity_id.0 == id.0 {
            assert(first_opportunity_at(s@, id, i as int));
            let ghost k = choose|k: int| first_opportunity_at(s@, id, k);
            assert(k == i as int) by {
                if k < i as int {
                    assert(s@[k].record.opportunity_id != id);
                } else if k > i as int {
                    assert(s@[i as int].record.opportunity_id != id);
                }
            }
            return Some(i);
        }
        i += 1;
    }
    assert(!exists|k: int| first_opportunity_at(s@, id, k));
    None
}

/// The stored type of the first work with this identity.
pub open spec fn work_type_of(s: Seq<StoredWorkType>, id: WorkId) -> Option<WorkType>
    decreases s.len(),
{
    if s.len() == 0 {
        None
    } else if s[0].work_id == id {
        Some(s[0].work_type)
    } else {
        work_type_of(s.drop_first(), id)
    }
}

fn find_work_type(s: &[StoredWorkType], id: WorkId) -> (r: Option<WorkType>)
    ensures
        r == work_type_of(s@, id),
{
    let ghost v = s@;
    let mut i: usize = 0;
    assert(v.skip(0) =~= v);
    while i < s.len()
        invariant
            i <= v.len(),
            v == s@,
            work_type_of(v.skip(i as int), id) == work_type_of(v, id),
        decreases v.len() - i,
    {
        assert(v.skip(i as int).drop_first() =~= v.skip(i as int + 1));
        if s[i].work_id.0 == id.0 {
            return Some(s[i].work_type);
        }
        i += 1;
    }
    None
}

/// The selection still binds the exact opportunity revision and
/// fingerprints, and the opportunity's basis has not drifted.
pub open spec fn pair_current(selection: InformationSelectionRecord, opportunity: CurrentOpportunity) -> bool {
    selection_current(*opportunity.record, selection) && opportunity.current_basis == opportunity.record.basis_fingerprint
}

/// Refuses a selection that is stale against its opportunity or against the
/// opportunity's current source basis.
pub fn validate_current_pair(selection: &InformationSelectionRecord, opportunity: &CurrentOpportunity) -> (r: Result<(), ZapError>)
    ensures
        r is Ok <==> pair_current(*selection, *opportunity),
        r matches Err(e) ==> e.code == ErrorCode::StaleRevision,
{
    let record = opportunity.record;
    if selection.opportunity_revision != record.revision || selection.opportunity_fingerprint.0 != record.semantic_fingerprint.0
        || selection.basis_fingerprint.0 != record.basis_fingerprint.0 || opportunity.current_basis.0 != record.basis_fingerprint.0
    {
        return Err(ZapError::new(ErrorCode::StaleRevision));
    }
    Ok(())
}

/// An earlier binding already names this selection or this work.
pub open spec fn duplicates_earlier(b: InformationLoweringBinding, earlier: Seq<InformationLoweringBinding>) -> bool {
    exists|j: int| 0 <= j < earlier.len() && ((#[trigger] earlier[j]).selection_id == b.selection_id || earlier[j].work_id == b.work_id)
}

/// Why one binding is refused after the earlier ones were accepted, if it is.
pub open spec fn binding_error(b: InformationLoweringBinding, earlier: Seq<InformationLoweringBinding>, store: InformationStore) -> Option<ErrorCode> {
    if duplicates_earlier(b, earlier) {
        Some(ErrorCode::DuplicateIdentity)
    } else {
        match selection_of(store.selections@, b.selection_id) {
            None => Some(ErrorCode::MissingReference),
            Some(selection) => match opportunity_index(store.opportunities@, selection.opportunity_id) {
                None => Some(ErrorCode::MissingReference),
                Some(k) => {
                    let opportunity = store.opportunities@[k];
                    let rule = opportunity.record.content.stop_rule;
                    if !pair_current(selection, opportunity) {
                        Some(ErrorCode::StaleRevision)
                    } else if selection.candidate_work_id != b.work_id || selection.work_type != b.work_type
                        || !spec_allowed_work_type(b.work_type) {
                        Some(ErrorCode::Conflict)
                    } else if work_type_of(store.works@, selection.candidate_work_id) is Some
                        && work_type_of(store.works@, selection.candidate_work_id)->0 != b.work_type {
                        Some(ErrorCode::Conflict)
                    } else if rule.enforcement == InformationStopEnforcement::ContractBoundary && blank_text(rule.explanation@) {
                        Some(ErrorCode::InvalidValue)
                    } else {
                        None
                    }
                },
            },
        }
    }
}

/// The refusal of the first refused binding among the first `n`.
pub open spec fn first_binding_error(bs: Seq<InformationLoweringBinding>, n: int, store: InformationStore) -> Option<ErrorCode>
    decreases n,
{
    if n <= 0 {
        None
    } else {
        match first_binding_error(bs, n - 1, store) {
            Some(e) => Some(e),
            None => binding_error(bs[n - 1], bs.take(n - 1), store),
        }
    }
}

proof fn lemma_first_error_stays(bs: Seq<InformationLoweringBinding>, n: int, m: int, store: InformationStore)
    requires
        0 <= n <= m,
        first_binding_error(bs, n, store) is Some,
    ensures
        first_binding_error(bs, m, store) == first_binding_error(bs, n, store),
    decreases m - n,
{
    if m > n {
        lemma_first_error_stays(bs, n, m - 1, store);
    }
}

proof fn lemma_accepted_prefix(bs: Seq<InformationLoweringBinding>, n: int, j: int, store: InformationStore)
    requires
        0 <= j < n,
        first_binding_error(bs, n, store) is None,
    ensures
        binding_error(bs[j], bs.take(j), store) is None,
    decreases n,
{
    if j < n - 1 {
        lemma_accepted_prefix(bs, n - 1, j, store);
    }
}

/// One lowering never binds a selection or a candidate work twice: in an
/// accepted list of bindings, selections and works are pairwise distinct,
/// and each binding's work is Evidence or Decision work.
pub proof fn law_accepted_bindings_are_distinct(bs: Seq<InformationLoweringBinding>, store: InformationStore)
    requires
        first_binding_error(bs, bs.len() as int, store) is None,
    ensures
        forall|i: int, j: int| 0 <= i < j < bs.len() ==> (#[trigger] bs[i]).selection_id != (#[trigger] bs[j]).selection_id
            && bs[i].work_id != bs[j].work_id,
        forall|i: int| 0 <= i < bs.len() ==> spec_allowed_work_type(#[trigger] bs[i].work_type),
{
    assert forall|i: int, j: int| 0 <= i < j < bs.len() implies (#[trigger] bs[i]).selection_id != (#[trigger] bs[j]).selection_id
        && bs[i].work_id != bs[j].work_id by {
        lemma_accepted_prefix(bs, bs.len() as int, j, store);
        assert(bs.take(j)[i] == bs[i]);
    }
    assert forall|i: int| 0 <= i < bs.len() implies spec_allowed_work_type(#[trigger] bs[i].work_type) by {
        lemma_accepted_prefix(bs, bs.len() as int, i, store);
    }
}

fn duplicate_before(bindings: &[InformationLoweringBinding], i: usize) -> (r: bool)
    requires
        i < bindings@.len(),
    ensures
        r == duplicates_earlier(bindings@[i as int], bindings@.take(i as int)),
{
    let b = bindings[i];
    let mut j: usize = 0;
    while j < i
        invariant
            i < bindings@.len(),
            j <= i,
            b == bindings@[i as int],
            forall|k: int| 0 <= k < j ==> !((#[trigger] bindings@[k]).selection_id == b.selection_id || bindings@[k].work_id == b.work_id),
        decreases i - j,
    {
        if bindings[j].selection_id.0 == b.selection_id.0 || bindings[j].work_id.0 == b.work_id.0 {
            assert(bindings@.take(i as int)[j as int] == bindings@[j as int]);
            return true;
        }
        j += 1;
    }
    assert forall|k: int| 0 <= k < i implies !((#[trigger] bindings@.take(i as int)[k]).selection_id == b.selection_id
        || bindings@.take(i as int)[k].work_id == b.work_id) by {
        assert(bindings@.take(i as int)[k] == bindings@[k]);
    }
    false
}

fn check_binding(bindings: &[InformationLoweringBinding], i: usize, store: &InformationStore) -> (r: Result<(), ZapError>)
    requires
        i < bindings@.len(),
    ensures
        match binding_error(bindings@[i as int], bindings@.take(i as int), *store) {
            None => r is Ok,
            Some(c) => r matches Err(e) && e.code == c,
        },
{
    let b = bindings[i];
    if duplicate_before(bindings, i) {
        return Err(ZapError::new(ErrorCode::DuplicateIdentity));
    }
    let selection = match find_selection(store.selections, b.selection_id) {
        Some(s) => s,
        None => return Err(ZapError::new(ErrorCode::MissingReference)),
    };
    let k = match find_opportunity(store.opportunities, selection.opportunity_id) {
        Some(k) => k,
        None => return Err(ZapError::new(ErrorCode::MissingReference)),
    };
    let opportunity = &store.opportunities[k];
    validate_current_pair(&selection, opportunity)?;
    if selection.candidate_work_id.0 != b.work_id.0 || selection.work_type != b.work_type || !allowed_work_type(b.work_type) {
        return Err(ZapError::new(ErrorCode::Conflict));
    }
    match find_work_type(store.works, selection.candidate_work_id) {
        Some(t) => {
            if t != b.work_type {
                return Err(ZapError::new(ErrorCode::Conflict));
            }
        },
        None => {},
    }
    let rule = &opportunity.record.content.stop_rule;
    if rule.enforcement == InformationStopEnforcement::ContractBoundary && blank(rule.explanation.as_str()) {
        return Err(ZapError::new(ErrorCode::InvalidValue));
    }
    Ok(())
}

/// Checks the information selections that one lowering executes: no
/// selection or candidate work twice, each selection current against its
/// opportunity, the work the exact selected identity with an Evidence or
/// Decision type that a retry keeps, and a contract-bound stop rule that
/// still explains its safe boundary. No binding reads nothing.
pub fn validate_lowering_information_bindings(bindings: &[InformationLoweringBinding], store: &InformationStore) -> (r: Result<(), ZapError>)
    ensures
        match first_binding_error(bindings@, bindings@.len() as int, *store) {
            None => r is Ok,
            Some(c) => r matches Err(e) && e.code == c,
        },
{
    if bindings.len() == 0 {
        return Ok(());
    }
    let mut i: usize = 0;
    while i < bindings.len()
        invariant
            i <= bindings@.len(),
            first_binding_error(bindings@, i as int, *store) is None,
        decreases bindings@.len() - i,
    {
        let checked = check_binding(bindings, i, store);
        match checked {
            Err(e) => {
                proof {
                    lemma_first_error_stays(bindings@, i as int + 1, bindings@.len() as int, *store);
                }
                return Err(e);
            },
            Ok(()) => {},
        }
        i += 1;
    }
    Ok(())
}

/// The decimal digit `d` as a character.
pub open spec fn digit_char(d: nat) -> char {
    if d == 0 { '0' } else if d == 1 { '1' } else if d == 2 { '2' } else if d == 3 { '3' } else if d == 4 { '4' }
    else if d == 5 { '5' } else if d == 6 { '6' } else if d == 7 { '7' } else if d == 8 { '8' } else { '9' }
}

/// The decimal text of `n`, without leading zeros.
pub open spec fn decimal(n: nat) -> Seq<char>
    decreases n,
{
    if n < 10 {
        seq![digit_char(n)]
    } else {
        decimal(n / 10) + seq![digit_char(n % 10)]
    }
}

fn digit_text(d: u64) -> (s: &'static str)
    requires
        d < 10,
    ensures
        s@ == seq![digit_char(d as nat)],
{
    let s = if d == 0 { "0" } else if d == 1 { "1" } else if d == 2 { "2" } else if d == 3 { "3" } else if d == 4 { "4" }
        else if d == 5 { "5" } else if d == 6 { "6" } else if d == 7 { "7" } else if d == 8 { "8" } else { "9" };
    proof {
        reveal_strlit("0");
        reveal_strlit("1");
        reveal_strlit("2");
        reveal_strlit("3");
        reveal_strlit("4");
        reveal_strlit("5");
        reveal_strlit("6");
        reveal_strlit("7");
        reveal_strlit("8");
        reveal_strlit("9");
    }
    assert(s@ =~= seq![digit_char(d as nat)]);
    s
}

fn push_decimal(out: &mut String, n: u64)
    ensures
        final(out)@ == old(out)@ + decimal(n as nat),
    decreases n,
{
    if n >= 10 {
        push_decimal(out, n / 10);
    }
    out.append(digit_text(n % 10));
    assert(final(out)@ =~= old(out)@ + decimal(n as nat)) by {
        if n >= 10 {
            assert(decimal(n as nat) == decimal((n / 10) as nat) + seq![digit_char((n % 10) as nat)]);
        }
    }
}

/// The text of a flag.
pub open spec fn flag_text(b: bool) -> Seq<char> {
    if b { "true"@ } else { "false"@ }
}

/// The text of an optional bound: its decimal value, or `unknown`.
pub open spec fn bound_text(v: Option<nat>) -> Seq<char> {
    match v {
        Some(n) => decimal(n),
        None => "unknown"@,
    }
}

/// The name of an enforcement.
pub open spec fn enforcement_text(e: InformationStopEnforcement) -> Seq<char> {
    match e {
        InformationStopEnforcement::ContractBoundary => "ContractBoundary"@,
        InformationStopEnforcement::DecisionGuidance => "DecisionGuidance"@,
    }
}

pub open spec fn attempts_bound(v: Option<u32>) -> Option<nat> {
    match v {
        Some(n) => Some(n as nat),
        None => None,
    }
}

pub open spec fn hours_bound(v: Option<HoursMicros>) -> Option<nat> {
    match v {
        Some(h) => Some(h.0 as nat),
        None => None,
    }
}

/// The safe-stop boundary text that a contract-bound stop rule carries into
/// the task contract, keyed by the rule's fingerprint.
pub open spec fn boundary_text(rule: InformationStopRule, fingerprint: DigestValue) -> Seq<char> {
    "information-stop "@ + decimal(fingerprint.0 as nat) + ": observed="@ + flag_text(rule.stop_when_observed)
        + "; attempts="@ + bound_text(attempts_bound(rule.maximum_attempts))
        + "; agent_micro_hours="@ + bound_text(hours_bound(rule.maximum_agent_hours))
        + "; elapsed_micro_hours="@ + bound_text(hours_bound(rule.maximum_elapsed))
        + "; source_drift="@ + flag_text(rule.stop_on_source_drift)
        + "; enforcement="@ + enforcement_text(rule.enforcement)
        + "; "@ + rule.explanation@
}

/// The longest boundary text, in characters.
pub const BOUNDARY_TEXT_LIMIT: usize = 4096;

fn push_flag(out: &mut String, b: bool)
    ensures
        final(out)@ == old(out)@ + flag_text(b),
{
    if b {
        out.append("true");
    } else {
        out.append("false");
    }
}

fn push_bound(out: &mut String, v: Option<u64>)
    ensures
        final(out)@ == old(out)@ + bound_text(match v { Some(n) => Some(n as nat), None => None }),
{
    match v {
        Some(n) => push_decimal(out, n),
        None => out.append("unknown"),
    }
}

/// Renders the safe-stop boundary of a stop rule; a text over the bound is
/// refused.
pub fn safe_stop_boundary(rule: &InformationStopRule, fingerprint: DigestValue) -> (r: Result<String, ZapError>)
    ensures
        boundary_text(*rule, fingerprint).len() <= BOUNDARY_TEXT_LIMIT ==> (r matches Ok(t) && t@ == boundary_text(*rule, fingerprint)),
        boundary_text(*rule, fingerprint).len() > BOUNDARY_TEXT_LIMIT ==> (r matches Err(e) && e.code == ErrorCode::InvalidValue),
{
    let mut out = String::from_str("information-stop ");
    push_decimal(&mut out, fingerprint.0);
    out.append(": observed=");
    push_flag(&mut out, rule.stop_when_observed);
    out.append("; attempts=");
    let attempts: Option<u64> = match rule.maximum_attempts {
        Some(n) => Some(n as u64),
        None => None,
    };
    push_bound(&mut out, attempts);
    out.append("; agent_micro_hours=");
    let agent: Option<u64> = match rule.maximum_agent_hours {
        Some(h) => Some(h.0),
        None => None,
    };
    push_bound(&mut out, agent);
    out.append("; elapsed_micro_hours=");
    let elapsed: Option<u64> = match rule.maximum_elapsed {
        Some(h) => Some(h.0),
        None => None,
    };
    push_bound(&mut out, elapsed);
    out.append("; source_drift=");
    push_flag(&mut out, rule.stop_on_source_drift);
    out.append("; enforcement=");
    match rule.enforcement {
        InformationStopEnforcement::ContractBoundary => out.append("ContractBoundary"),
        InformationStopEnforcement::DecisionGuidance => out.append("DecisionGuidance"),
    }
    out.append("; ");
    out.append(rule.explanation.as_str());
    assert(out@ =~= boundary_text(*rule, fingerprint));
    if out.as_str().unicode_len() > BOUNDARY_TEXT_LIMIT {
        return Err(ZapError::new(ErrorCode::InvalidValue));
    }
    Ok(out)
}

/// What a selected opportunity hands to the worker that executes it.
pub struct InformationExecutionContext {
    pub selection_id: InformationSelectionId,
    pub selection_revision: u64,
    pub work_id: WorkId,
    pub work_type: WorkType,
    pub opportunity_fingerprint: DigestValue,
    pub basis_fingerprint: DigestValue,
    pub observation_sought: String,
    pub sources: Vec<SourceCapture>,
    pub source_ids: Vec<SourceId>,
    pub stop_rule: InformationStopRule,
    pub stop_rule_fingerprint: DigestValue,
    pub required_safe_stop_boundary: String,
    pub satisfying_evidence_ids: Vec<EvidenceId>,
}

fn copy_stop_rule(rule: &InformationStopRule) -> (c: InformationStopRule)
    ensures
        c == *rule,
{
    InformationStopRule {
        stop_when_observed: rule.stop_when_observed,
        maximum_attempts: rule.maximum_attempts,
        maximum_agent_hours: rule.maximum_agent_hours,
        maximum_elapsed: rule.maximum_elapsed,
        stop_on_source_drift: rule.stop_on_source_drift,
        enforcement: rule.enforcement,
        explanation: rule.explanation.clone(),
    }
}

/// The captured sources that an opportunity reads, in declaration order.
pub open spec fn spec_captures(opportunity: InformationOpportunityRecord) -> Seq<SourceCapture> {
    opportunity.content.sources@.map_values(|b: crate::information::InformationSourceBinding| b.capture)
}

fn captures(opportunity: &InformationOpportunityRecord) -> (r: Vec<SourceCapture>)
    ensures
        r@ == spec_captures(*opportunity),
{
    let sources = &opportunity.content.sources;
    let mut out: Vec<SourceCapture> = Vec::new();
    let mut i: usize = 0;
    while i < sources.len()
        invariant
            i <= sources@.len(),
            sources == &opportunity.content.sources,
            out@ == sources@.take(i as int).map_values(|b: crate::information::InformationSourceBinding| b.capture),
        decreases sources@.len() - i,
    {
        out.push(sources[i].capture);
        assert(sources@.take(i + 1) =~= sources@.take(i as int).push(sources@[i as int]));
        assert(out@ =~= sources@.take(i + 1).map_values(|b: crate::information::InformationSourceBinding| b.capture));
        i += 1;
    }
    assert(sources@.take(i as int) =~= sources@);
    out
}

/// The context that a current selection hands to its worker: the selected
/// work, the opportunity's fingerprints, what it seeks and reads, its stop
/// rule with that rule's fingerprint and safe boundary, and the evidence
/// that would satisfy it.
pub open spec fn context_matches(
    c: InformationExecutionContext,
    selection: InformationSelectionRecord,
    opportunity: InformationOpportunityRecord,
    stop_rule_fingerprint: DigestValue,
) -> bool {
    &&& c.selection_id == selection.selection_id
    &&& c.selection_revision == selection.revision
    &&& c.work_id == selection.candidate_work_id
    &&& c.work_type == selection.work_type
    &&& c.opportunity_fingerprint == opportunity.semantic_fingerprint
    &&& c.basis_fingerprint == opportunity.basis_fingerprint
    &&& c.observation_sought@ == opportunity.content.observation_sought@
    &&& c.sources@ == spec_captures(opportunity)
    &&& c.source_ids@ == opportunity.content.spec_source_ids()
    &&& c.stop_rule == opportunity.content.stop_rule
    &&& c.stop_rule_fingerprint == stop_rule_fingerprint
    &&& c.required_safe_stop_boundary@ == boundary_text(opportunity.content.stop_rule, stop_rule_fingerprint)
    &&& c.satisfying_evidence_ids@ == opportunity.content.satisfying_evidence_ids@
}

/// The opportunity that a stored selection names, where both are stored.
pub open spec fn context_opportunity<'a>(store: InformationStore<'a>, selection_id: InformationSelectionId) -> CurrentOpportunity<'a> {
    store.opportunities@[opportunity_index(store.opportunities@, selection_of(store.selections@, selection_id)->0.opportunity_id)->0]
}

/// Why no execution context can be built for a selection, if none can: the
/// selection or its opportunity is missing, the pair is stale, or the
/// boundary text is over its bound.
pub open spec fn context_error(store: InformationStore, selection_id: InformationSelectionId, stop_rule_fingerprint: DigestValue) -> Option<ErrorCode> {
    match selection_of(store.selections@, selection_id) {
        None => Some(ErrorCode::MissingReference),
        Some(selection) => match opportunity_index(store.opportunities@, selection.opportunity_id) {
            None => Some(ErrorCode::MissingReference),
            Some(k) => {
                let opportunity = store.opportunities@[k];
                if !pair_current(selection, opportunity) {
                    Some(ErrorCode::StaleRevision)
                } else if boundary_text(opportunity.record.content.stop_rule, stop_rule_fingerprint).len() > BOUNDARY_TEXT_LIMIT {
                    Some(ErrorCode::InvalidValue)
                } else {
                    None
                }
            },
        },
    }
}

/// The execution context of a selection, refused where the selection or its
/// opportunity is missing, the pair is stale, or the boundary text is over
/// its bound. `stop_rule_fingerprint` is the fingerprint of the selected
/// opportunity's stop rule.
pub fn selected_information_execution_context(
    store: &InformationStore,
    selection_id: InformationSelectionId,
    stop_rule_fingerprint: DigestValue,
) -> (r: Result<InformationExecutionContext, ZapError>)
    ensures
        match context_error(*store, selection_id, stop_rule_fingerprint) {
            Some(c) => r matches Err(e) && e.code == c,
            None => r matches Ok(c) && context_matches(
                c,
                selection_of(store.selections@, selection_id)->0,
                *context_opportunity(*store, selection_id).record,
                stop_rule_fingerprint,
            ),
        },
{
    let selection = match find_selection(store.selections, selection_id) {
        Some(s) => s,
        None => return Err(ZapError::new(ErrorCode::MissingReference)),
    };
    let k = match find_opportunity(store.opportunities, selection.opportunity_id) {
        Some(k) => k,
        None => return Err(ZapError::new(ErrorCode::MissingReference)),
    };
    let opportunity = &store.opportunities[k];
    validate_current_pair(&selection, opportunity)?;
    let record = opportunity.record;
    let content = &record.content;
    let required_safe_stop_boundary = safe_stop_boundary(&content.stop_rule, stop_rule_fingerprint)?;
    Ok(InformationExecutionContext {
        selection_id: selection.selection_id,
        selection_revision: selection.revision,
        work_id: selection.candidate_work_id,
        work_type: selection.work_type,
        opportunity_fingerprint: record.semantic_fingerprint,
        basis_fingerprint: record.basis_fingerprint,
        observation_sought: content.observation_sought.clone(),
        sources: captures(record),
        source_ids: content.source_ids(),
        stop_rule: copy_stop_rule(&content.stop_rule),
        stop_rule_fingerprint,
        required_safe_stop_boundary,
        satisfying_evidence_ids: copy_items(&content.satisfying_evidence_ids),
    })
}

/// Two stop rules say the same.
pub open spec fn same_stop_rule(a: InformationStopRule, b: InformationStopRule) -> bool {
    &&& a.stop_when_observed == b.stop_when_observed
    &&& a.maximum_attempts == b.maximum_attempts
    &&& a.maximum_agent_hours == b.maximum_agent_hours
    &&& a.maximum_elapsed == b.maximum_elapsed
    &&& a.stop_on_source_drift == b.stop_on_source_drift
    &&& a.enforcement == b.enforcement
    &&& a.explanation@ == b.explanation@
}

fn stop_rules_equal(a: &InformationStopRule, b: &InformationStopRule) -> (r: bool)
    ensures
        r == same_stop_rule(*a, *b),
{
    let attempts = match (a.maximum_attempts, b.maximum_attempts) {
        (None, None) => true,
        (Some(x), Some(y)) => x == y,
        _ => false,
    };
    let agent = match (a.maximum_agent_hours, b.maximum_agent_hours) {
        (None, None) => true,
        (Some(x), Some(y)) => x.0 == y.0,
        _ => false,
    };
    let elapsed = match (a.maximum_elapsed, b.maximum_elapsed) {
        (None, None) => true,
        (Some(x), Some(y)) => x.0 == y.0,
        _ => false,
    };
    a.stop_when_observed == b.stop_when_observed && attempts && agent && elapsed && a.stop_on_source_drift == b.stop_on_source_drift
        && a.enforcement == b.enforcement && a.explanation == b.explanation
}

/// What a materialization cause pins of the information it executes.
pub struct SelectedInformationSnapshot {
    pub selection_id: InformationSelectionId,
    pub selection_revision: u64,
    pub opportunity_fingerprint: DigestValue,
    pub basis_fingerprint: DigestValue,
    pub stop_rule: InformationStopRule,
    pub stop_rule_fingerprint: DigestValue,
}

/// The snapshot still equals the current selection and opportunity, and
/// names the materialized work.
pub open spec fn snapshot_current(
    s: SelectedInformationSnapshot,
    selection: InformationSelectionRecord,
    opportunity: InformationOpportunityRecord,
    stop_rule_fingerprint: DigestValue,
    work_id: WorkId,
    work_type: WorkType,
) -> bool {
    &&& s.selection_revision == selection.revision
    &&& s.opportunity_fingerprint == opportunity.semantic_fingerprint
    &&& s.basis_fingerprint == opportunity.basis_fingerprint
    &&& same_stop_rule(s.stop_rule, opportunity.content.stop_rule)
    &&& s.stop_rule_fingerprint == stop_rule_fingerprint
    &&& selection.candidate_work_id == work_id
    &&& selection.work_type == work_type
}

/// The outcome of checking a snapshot against the current selection.
pub open spec fn snapshot_error(
    store: InformationStore,
    s: SelectedInformationSnapshot,
    work_id: WorkId,
    work_type: WorkType,
    contract_safe_stop: Option<Seq<char>>,
    stop_rule_fingerprint: DigestValue,
) -> Option<ErrorCode> {
    match context_error(store, s.selection_id, stop_rule_fingerprint) {
        Some(c) => Some(c),
        None => {
            let selection = selection_of(store.selections@, s.selection_id)->0;
            let opportunity = *context_opportunity(store, s.selection_id).record;
            let rule = opportunity.content.stop_rule;
            if !snapshot_current(s, selection, opportunity, stop_rule_fingerprint, work_id, work_type) {
                Some(ErrorCode::StaleRevision)
            } else if rule.enforcement == InformationStopEnforcement::ContractBoundary
                && contract_safe_stop != Some(boundary_text(rule, stop_rule_fingerprint)) {
                Some(ErrorCode::InvalidValue)
            } else {
                None
            }
        },
    }
}

pub open spec fn text_view(t: Option<&str>) -> Option<Seq<char>> {
    match t {
        Some(x) => Some(x@),
        None => None,
    }
}

/// Checks the information snapshot of a newly materialized work against the
/// current selection: no snapshot checks nothing; a stale snapshot is
/// refused; a contract-bound stop rule must be the task contract's safe
/// boundary, word for word. `stop_rule_fingerprint` is the fingerprint of
/// the selected opportunity's current stop rule and `contract_safe_stop` the
/// safe boundary of the work's task contract, if it has one.
pub fn validate_information_snapshot(
    store: &InformationStore,
    snapshot: Option<&SelectedInformationSnapshot>,
    work_id: WorkId,
    work_type: WorkType,
    contract_safe_stop: Option<&str>,
    stop_rule_fingerprint: DigestValue,
) -> (r: Result<(), ZapError>)
    ensures
        match snapshot {
            None => r is Ok,
            Some(s) => match snapshot_error(*store, *s, work_id, work_type, text_view(contract_safe_stop), stop_rule_fingerprint) {
                None => r is Ok,
                Some(c) => r matches Err(e) && e.code == c,
            },
        },
{
    let s = match snapshot {
        None => return Ok(()),
        Some(s) => s,
    };
    let context = selected_information_execution_context(store, s.selection_id, stop_rule_fingerprint)?;
    if context.selection_revision != s.selection_revision || context.opportunity_fingerprint.0 != s.opportunity_fingerprint.0
        || context.basis_fingerprint.0 != s.basis_fingerprint.0 || !stop_rules_equal(&context.stop_rule, &s.stop_rule)
        || context.stop_rule_fingerprint.0 != s.stop_rule_fingerprint.0 || context.work_id.0 != work_id.0
        || context.work_type != work_type
    {
        return Err(ZapError::new(ErrorCode::StaleRevision));
    }
    if context.stop_rule.enforcement == InformationStopEnforcement::ContractBoundary {
        let bound = match contract_safe_stop {
            None => false,
            Some(t) => string_equals_str(&context.required_safe_stop_boundary, t),
        };
        if !bound {
            return Err(ZapError::new(ErrorCode::InvalidValue));
        }
    }
    Ok(())
}

fn string_equals_str(a: &String, b: &str) -> (r: bool)
    ensures
        r == (a@ == b@),
{
    let owned = String::from_str(b);
    *a == owned
}

} // verus!
