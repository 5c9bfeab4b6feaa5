//! What a worker packet binds: the closure of current source captures it
//! reads, the rule sources it follows, the strategic forks it carries, the
//! facts its role is routed on, and its place in the packet lineage.
use vstd::prelude::*;

use crate::error::{ErrorCode, ErrorDetail, ZapError};
use crate::authority::WorkerRole;
use crate::active_context::PlanningRevisionState;
use crate::ids::{ContractId, DigestValue, ForkId, LoweringId, ObligationId, PacketId, Revision, SourceId, SubjectKey, WorkId};
use crate::materialize::{ContractRecord, WorkRecord};
use crate::information::SourceCapture;

verus! {

/// A source record as the store holds it: its current digest and whether
/// its capture is current.
#[derive(Clone, Copy, Debug, PartialEq, Eq, Structural)]
pub struct SourceState {
    pub source_id: SourceId,
    pub digest: DigestValue,
    pub current: bool,
}

/// The record the store holds for a source, if any.
pub open spec fn source_lookup(sources: Seq<SourceState>, id: SourceId) -> Option<SourceState>
    decreases sources.len(),
{
    if sources.len() == 0 {
        None
    } else if sources[0].source_id == id {
        Some(sources[0])
    } else {
        source_lookup(sources.drop_first(), id)
    }
}

/// A source a packet reads: by handle, or at a captured digest.
#[derive(Clone, Copy, Debug, PartialEq, Eq, Structural)]
pub struct SourceReference {
    pub source_id: SourceId,
    pub expected: Option<DigestValue>,
}

/// Why one reference cannot be bound: its source is missing, not current,
/// or no longer at the captured digest.
pub open spec fn reference_error(r: SourceReference, sources: Seq<SourceState>) -> Option<ErrorCode> {
    match source_lookup(sources, r.source_id) {
        None => Some(ErrorCode::MissingReference),
        Some(s) => if !s.current {
            Some(ErrorCode::Conflict)
        } else if r.expected matches Some(d) && d != s.digest {
            Some(ErrorCode::Conflict)
        } else {
            None
        },
    }
}

/// The refusal of the first reference that cannot be bound.
pub open spec fn first_reference_error(refs: Seq<SourceReference>, sources: Seq<SourceState>) -> Option<ErrorCode>
    decreases refs.len(),
{
    if refs.len() == 0 {
        None
    } else if reference_error(refs[0], sources) is Some {
        reference_error(refs[0], sources)
    } else {
        first_reference_error(refs.drop_first(), sources)
    }
}

/// Some reference names the source.
pub open spec fn referenced(refs: Seq<SourceReference>, id: SourceId) -> bool {
    exists|k: int| 0 <= k < refs.len() && (#[trigger] refs[k]).source_id == id
}

/// Captures strictly ordered by source.
pub open spec fn captures_by_source(s: Seq<SourceCapture>) -> bool {
    forall|i: int, j: int| 0 <= i < j < s.len() ==> (#[trigger] s[i]).source_id.0 < (#[trigger] s[j]).source_id.0
}

/// The capture names a referenced source at its current digest.
pub open spec fn held_current(refs: Seq<SourceReference>, sources: Seq<SourceState>, c: SourceCapture) -> bool {
    &&& referenced(refs, c.source_id)
    &&& source_lookup(sources, c.source_id) matches Some(s)
    &&& c.digest == s.digest
}

/// The closure of a packet's references: each referenced source once, in
/// source order, at its current digest.
pub open spec fn is_closure(out: Seq<SourceCapture>, refs: Seq<SourceReference>, sources: Seq<SourceState>) -> bool {
    &&& captures_by_source(out)
    &&& forall|k: int| 0 <= k < out.len() ==> held_current(refs, sources, #[trigger] out[k])
    &&& forall|k: int| 0 <= k < refs.len() ==> exists|m: int| 0 <= m < out.len() && (#[trigger] out[m]).source_id == (#[trigger] refs[k]).source_id
}

fn lookup_source(sources: &[SourceState], id: SourceId) -> (r: Option<SourceState>)
    ensures
        r == source_lookup(sources@, id),
{
    let ghost s = sources@;
    let mut i: usize = 0;
    assert(s.skip(0) =~= s);
    while i < sources.len()
        invariant
            i <= s.len(),
            s == sources@,
            source_lookup(s.skip(i as int), id) == source_lookup(s, id),
        decreases s.len() - i,
    {
        assert(s.skip(i as int).drop_first() =~= s.skip(i as int + 1));
        if sources[i].source_id.0 == id.0 {
            return Some(sources[i]);
        }
        i += 1;
    }
    None
}

fn check_reference(r: SourceReference, sources: &[SourceState]) -> (res: Result<SourceState, ZapError>)
    ensures
        match reference_error(r, sources@) {
            Some(c) => res matches Err(e) && e.code == c,
            None => res matches Ok(s) && source_lookup(sources@, r.source_id) == Some(s),
        },
{
    let s = match lookup_source(sources, r.source_id) {
        Some(s) => s,
        None => return Err(ZapError::new(ErrorCode::MissingReference)),
    };
    if !s.current {
        return Err(ZapError::new(ErrorCode::Conflict));
    }
    match r.expected {
        Some(d) => {
            if d.0 != s.digest.0 {
                return Err(ZapError::new(ErrorCode::Conflict));
            }
        },
        None => {},
    }
    Ok(s)
}

/// Adds a capture unless its source is already held, keeping source order.
fn insert_capture(out: &mut Vec<SourceCapture>, c: SourceCapture)
    requires
        captures_by_source(old(out)@),
    ensures
        captures_by_source(final(out)@),
        forall|k: int| 0 <= k < final(out)@.len() ==> (#[trigger] final(out)@[k]) == c || old(out)@.contains(final(out)@[k]),
        forall|k: int| 0 <= k < old(out)@.len() ==> final(out)@.contains(#[trigger] old(out)@[k]),
        exists|m: int| 0 <= m < final(out)@.len() && (#[trigger] final(out)@[m]).source_id == c.source_id,
{
    let mut p: usize = 0;
    while p < out.len() && out[p].source_id.0 < c.source_id.0
        invariant
            p <= out.len(),
            forall|m: int| 0 <= m < p ==> out@[m].source_id.0 < c.source_id.0,
        decreases out.len() - p,
    {
        p += 1;
    }
    if p < out.len() && out[p].source_id.0 == c.source_id.0 {
        assert(out@[p as int].source_id == c.source_id);
        assert forall|k: int| 0 <= k < out@.len() implies out@.contains(#[trigger] out@[k]) by {
            assert(out@[k] == out@[k]);
        }
        return;
    }
    let ghost before = out@;
    out.insert(p, c);
    proof {
        assert(out@[p as int] == c);
        assert forall|i: int, j: int| 0 <= i < j < out@.len() implies (#[trigger] out@[i]).source_id.0 < (#[trigger] out@[j]).source_id.0 by {
            if i < p as int && j == p as int {
            } else if i < p as int && j > p as int {
                assert(out@[j] == before[j - 1]);
            } else if i == p as int && j > p as int {
                assert(out@[j] == before[j - 1]);
                if j - 1 > p as int {
                    assert(before[p as int].source_id.0 < before[j - 1].source_id.0);
                }
            } else if i > p as int {
                assert(out@[i] == before[i - 1]);
                assert(out@[j] == before[j - 1]);
            }
        }
        assert forall|k: int| 0 <= k < out@.len() implies (#[trigger] out@[k]) == c || before.contains(out@[k]) by {
            if k < p as int {
                assert(out@[k] == before[k]);
            } else if k > p as int {
                assert(out@[k] == before[k - 1]);
            }
        }
        assert forall|k: int| 0 <= k < before.len() implies out@.contains(#[trigger] before[k]) by {
            if k < p as int {
                assert(out@[k] == before[k]);
            } else {
                assert(out@[k + 1] == before[k]);
            }
        }
    }
}

/// The references of a packet in the order they are checked: the
/// contract's source handles, the lowering's captures, then the sources its
/// verification plans read.
pub open spec fn packet_references(handles: Seq<SourceId>, captures: Seq<SourceCapture>, verification: Seq<SourceCapture>) -> Seq<SourceReference> {
    handles.map_values(|h: SourceId| SourceReference { source_id: h, expected: None })
        + captures.map_values(|c: SourceCapture| SourceReference { source_id: c.source_id, expected: Some(c.digest) })
        + verification.map_values(|c: SourceCapture| SourceReference { source_id: c.source_id, expected: Some(c.digest) })
}

fn references_of(handles: &[SourceId], captures: &[SourceCapture], verification: &[SourceCapture]) -> (r: Vec<SourceReference>)
    ensures
        r@ == packet_references(handles@, captures@, verification@),
{
    let mut out: Vec<SourceReference> = Vec::new();
    let mut i: usize = 0;
    while i < handles.len()
        invariant
            i <= handles@.len(),
            out@ == handles@.take(i as int).map_values(|h: SourceId| SourceReference { source_id: h, expected: None }),
        decreases handles@.len() - i,
    {
        out.push(SourceReference { source_id: handles[i], expected: None });
        assert(handles@.take(i as int + 1) =~= handles@.take(i as int).push(handles@[i as int]));
        assert(out@ =~= handles@.take(i as int + 1).map_values(|h: SourceId| SourceReference { source_id: h, expected: None }));
        i += 1;
    }
    assert(handles@.take(handles@.len() as int) =~= handles@);
    let ghost first = out@;
    let mut j: usize = 0;
    while j < captures.len()
        invariant
            j <= captures@.len(),
            out@ == first + captures@.take(j as int).map_values(|c: SourceCapture| SourceReference { source_id: c.source_id, expected: Some(c.digest) }),
        decreases captures@.len() - j,
    {
        out.push(SourceReference { source_id: captures[j].source_id, expected: Some(captures[j].digest) });
        assert(captures@.take(j as int + 1) =~= captures@.take(j as int).push(captures@[j as int]));
        assert(out@ =~= first + captures@.take(j as int + 1).map_values(|c: SourceCapture| SourceReference { source_id: c.source_id, expected: Some(c.digest) }));
        j += 1;
    }
    assert(captures@.take(captures@.len() as int) =~= captures@);
    let ghost second = out@;
    let mut k: usize = 0;
    while k < verification.len()
        invariant
            k <= verification@.len(),
            out@ == second + verification@.take(k as int).map_values(|c: SourceCapture| SourceReference { source_id: c.source_id, expected: Some(c.digest) }),
        decreases verification@.len() - k,
    {
        out.push(SourceReference { source_id: verification[k].source_id, expected: Some(verification[k].digest) });
        assert(verification@.take(k as int + 1) =~= verification@.take(k as int).push(verification@[k as int]));
        assert(out@ =~= second + verification@.take(k as int + 1).map_values(|c: SourceCapture| SourceReference { source_id: c.source_id, expected: Some(c.digest) }));
        k += 1;
    }
    assert(verification@.take(verification@.len() as int) =~= verification@);
    assert(out@ =~= packet_references(handles@, captures@, verification@));
    out
}

/// Binds a packet's source closure: every source that the contract, the
/// lowering or a verification plan reads must be current, and captured at
/// its current digest; the closure holds each source once, in source order.
pub fn derive_source_closure(
    handles: &[SourceId],
    captures: &[SourceCapture],
    verification: &[SourceCapture],
    sources: &[SourceState],
) -> (r: Result<Vec<SourceCapture>, ZapError>)
    ensures
        match first_reference_error(packet_references(handles@, captures@, verification@), sources@) {
            Some(c) => r matches Err(e) && e.code == c,
            None => r matches Ok(out) && is_closure(out@, packet_references(handles@, captures@, verification@), sources@),
        },
{
    let refs = references_of(handles, captures, verification);
    let ghost all = refs@;
    let mut out: Vec<SourceCapture> = Vec::new();
    let mut i: usize = 0;
    assert(all.skip(0) =~= all);
    while i < refs.len()
        invariant
            i <= all.len(),
            all == refs@,
            all == packet_references(handles@, captures@, verification@),
            first_reference_error(all, sources@) == first_reference_error(all.skip(i as int), sources@),
            captures_by_source(out@),
            forall|k: int| 0 <= k < out@.len() ==> held_current(all, sources@, #[trigger] out@[k]),
            forall|k: int| 0 <= k < i ==> exists|m: int| 0 <= m < out@.len() && (#[trigger] out@[m]).source_id == (#[trigger] all[k]).source_id,
        decreases all.len() - i,
    {
        assert(all.skip(i as int)[0] == all[i as int]);
        assert(all.skip(i as int).drop_first() =~= all.skip(i as int + 1));
        let s = match check_reference(refs[i], sources) {
            Ok(s) => s,
            Err(e) => {
                assert(all.skip(i as int).len() > 0);
                assert(first_reference_error(all.skip(i as int), sources@) == reference_error(all[i as int], sources@));
                return Err(e);
            },
        };
        let ghost before = out@;
        let c = SourceCapture { source_id: s.source_id, digest: s.digest };
        proof {
            let w = all[i as int];
            assert(source_lookup(sources@, w.source_id) == Some(s));
            lemma_lookup_finds(sources@, w.source_id);
        }
        insert_capture(&mut out, c);
        proof {
            assert(referenced(all, c.source_id)) by {
                assert(all[i as int].source_id == c.source_id);
            }
            assert(held_current(all, sources@, c));
            assert forall|k: int| 0 <= k < out@.len() implies held_current(all, sources@, #[trigger] out@[k]) by {
                if out@[k] != c {
                    let w = choose|m: int| 0 <= m < before.len() && before[m] == out@[k];
                    assert(before[w] == out@[k]);
                }
            }
            assert forall|k: int| 0 <= k < i + 1 implies exists|m: int| 0 <= m < out@.len() && (#[trigger] out@[m]).source_id == (#[trigger] all[k]).source_id by {
                if k < i {
                    let w = choose|m: int| 0 <= m < before.len() && (#[trigger] before[m]).source_id == all[k].source_id;
                    assert(out@.contains(before[w]));
                    let v = choose|m: int| 0 <= m < out@.len() && out@[m] == before[w];
                    assert(out@[v].source_id == all[k].source_id);
                }
            }
        }
        i += 1;
    }
    Ok(out)
}

proof fn lemma_lookup_finds(sources: Seq<SourceState>, id: SourceId)
    ensures
        source_lookup(sources, id) matches Some(s) ==> s.source_id == id,
    decreases sources.len(),
{
    if sources.len() > 0 && sources[0].source_id != id {
        lemma_lookup_finds(sources.drop_first(), id);
    }
}


/// Checks that every rule source a packet follows is current and still at
/// the digest the lowering bound.
pub fn validate_current_rules(rules: &[SourceCapture], sources: &[SourceState]) -> (r: Result<(), ZapError>)
    ensures
        match first_reference_error(packet_references(Seq::empty(), rules@, Seq::empty()), sources@) {
            Some(c) => r matches Err(e) && e.code == c,
            None => r is Ok,
        },
{
    let none: [SourceId; 0] = [];
    let also_none: [SourceCapture; 0] = [];
    assert(none@ =~= Seq::<SourceId>::empty());
    assert(also_none@ =~= Seq::<SourceCapture>::empty());
    match derive_source_closure(&none, rules, &also_none, sources) {
        Ok(_) => Ok(()),
        Err(e) => Err(e),
    }
}

/// A fork of the packet's strategy, with its prepared digest.
#[derive(Clone, Copy, Debug, PartialEq, Eq, Structural)]
pub struct StrategyFork {
    pub fork_id: ForkId,
    pub prepared_digest: DigestValue,
}

/// A fork a packet carries, bound to its prepared digest.
#[derive(Clone, Copy, Debug, PartialEq, Eq, Structural)]
pub struct ForkBinding {
    pub fork_id: ForkId,
    pub semantic_digest: DigestValue,
}

/// The first fork of the strategy with the identity.
pub open spec fn strategy_fork(forks: Seq<StrategyFork>, id: ForkId) -> Option<StrategyFork>
    decreases forks.len(),
{
    if forks.len() == 0 {
        None
    } else if forks[0].fork_id == id {
        Some(forks[0])
    } else {
        strategy_fork(forks.drop_first(), id)
    }
}

/// The binding carries the strategy's fork of that identity and its
/// prepared digest.
pub open spec fn binds_fork(strategy: Seq<StrategyFork>, id: ForkId, b: ForkBinding) -> bool {
    &&& strategy_fork(strategy, id) matches Some(f)
    &&& b == (ForkBinding { fork_id: f.fork_id, semantic_digest: f.prepared_digest })
}

/// Some fork of the lowering is absent from its strategy.
pub open spec fn fork_missing(strategy: Seq<StrategyFork>, lowering: Seq<ForkId>) -> bool {
    exists|k: int| 0 <= k < lowering.len() && strategy_fork(strategy, #[trigger] lowering[k]) is None
}

fn find_fork(forks: &[StrategyFork], id: ForkId) -> (r: Option<StrategyFork>)
    ensures
        r == strategy_fork(forks@, id),
{
    let ghost s = forks@;
    let mut i: usize = 0;
    assert(s.skip(0) =~= s);
    while i < forks.len()
        invariant
            i <= s.len(),
            s == forks@,
            strategy_fork(s.skip(i as int), id) == strategy_fork(s, id),
        decreases s.len() - i,
    {
        assert(s.skip(i as int).drop_first() =~= s.skip(i as int + 1));
        if forks[i].fork_id.0 == id.0 {
            return Some(forks[i]);
        }
        i += 1;
    }
    None
}

/// Binds each fork of the lowering, in order, to the prepared digest of the
/// strategy's fork; a fork the strategy lacks is a missing reference.
pub fn derive_fork_bindings(strategy: &[StrategyFork], lowering: &[ForkId]) -> (r: Result<Vec<ForkBinding>, ZapError>)
    ensures
        r is Err <==> fork_missing(strategy@, lowering@),
        r matches Err(e) ==> e.code == ErrorCode::MissingReference,
        r matches Ok(out) ==> out@.len() == lowering@.len() && forall|k: int| 0 <= k < out@.len() ==> binds_fork(strategy@, lowering@[k], #[trigger] out@[k]),
{
    let mut out: Vec<ForkBinding> = Vec::new();
    let mut i: usize = 0;
    while i < lowering.len()
        invariant
            i <= lowering@.len(),
            out@.len() == i,
            forall|k: int| 0 <= k < i ==> binds_fork(strategy@, lowering@[k], #[trigger] out@[k]),
        decreases lowering@.len() - i,
    {
        match find_fork(strategy, lowering[i]) {
            Some(f) => {
                out.push(ForkBinding { fork_id: f.fork_id, semantic_digest: f.prepared_digest });
            },
            None => {
                assert(strategy_fork(strategy@, lowering@[i as int]) is None);
                return Err(ZapError::new(ErrorCode::MissingReference));
            },
        }
        i += 1;
    }
    proof {
        assert forall|k: int| 0 <= k < lowering@.len() implies !(strategy_fork(strategy@, #[trigger] lowering@[k]) is None) by {
            assert(binds_fork(strategy@, lowering@[k], out@[k]));
        }
    }
    Ok(out)
}

/// How much is at stake in a packet's work.
#[derive(Clone, Copy, Debug, PartialEq, Eq, Structural)]
pub enum Consequence {
    Low,
    Medium,
    High,
}

/// How costly a packet's verification is.
#[derive(Clone, Copy, Debug, PartialEq, Eq, Structural)]
pub enum VerificationCost {
    Cheap,
    Moderate,
    Expensive,
}

/// The kind of a work item.
#[derive(Clone, Copy, Debug, PartialEq, Eq, Structural)]
pub enum WorkKind {
    Campaign,
    Phase,
    Workstream,
    /// Any other kind of work.
    Other,
}

/// The type of a work item.
#[derive(Clone, Copy, Debug, PartialEq, Eq, Structural)]
pub enum WorkType {
    Change,
    Decision,
    Evidence,
    Integration,
    /// Any other type of work.
    Other,
}

/// An obligation as the role assessment reads it.
#[derive(Clone, Copy, Debug, PartialEq, Eq, Structural)]
pub struct ObligationFacts {
    pub obligation_id: ObligationId,
    pub essential: bool,
}

/// The facts a packet's worker role is routed on.
#[derive(Clone, Copy, Debug, PartialEq, Eq, Structural)]
pub struct RoleAssessment {
    pub deterministic: bool,
    pub architectural: bool,
    pub novel: bool,
    pub consequence: Consequence,
    pub reversible: bool,
    pub context_fragments: u32,
    pub verification_cost: VerificationCost,
}

/// What the role assessment reads of a packet's work, contract and lowering.
pub struct RoleInput<'a> {
    pub work_subject: SubjectKey,
    pub work_kind: WorkKind,
    pub work_type: WorkType,
    pub covered_obligations: &'a [ObligationId],
    pub obligations: &'a [ObligationFacts],
    pub read_subjects: &'a [SubjectKey],
    pub write_subjects: &'a [SubjectKey],
    pub source_handle_count: usize,
    pub unresolved_horizon_subjects: &'a [SubjectKey],
    pub fork_count: usize,
    pub verification_plan_cases: &'a [usize],
    pub rule_count: Option<usize>,
}

/// An essential obligation among the ones the contract covers.
pub open spec fn covers_essential(covered: Seq<ObligationId>, obligations: Seq<ObligationFacts>) -> bool {
    exists|k: int| 0 <= k < obligations.len() && (#[trigger] obligations[k]).essential && covered.contains(obligations[k].obligation_id)
}

pub open spec fn consequence_of(input: RoleInput) -> Consequence {
    if covers_essential(input.covered_obligations@, input.obligations@) {
        Consequence::High
    } else if input.write_subjects@.len() > 0 || input.work_type == WorkType::Change {
        Consequence::Medium
    } else {
        Consequence::Low
    }
}

/// The subjects the packet touches: those it reads and writes, and its work.
pub open spec fn touches(input: RoleInput, s: SubjectKey) -> bool {
    input.read_subjects@.contains(s) || input.write_subjects@.contains(s) || s == input.work_subject
}

/// The work is novel when a horizon it touches is unresolved or the
/// lowering carries forks.
pub open spec fn novel_of(input: RoleInput) -> bool {
    (exists|k: int| 0 <= k < input.unresolved_horizon_subjects@.len() && touches(input, #[trigger] input.unresolved_horizon_subjects@[k]))
        || input.fork_count > 0
}

pub open spec fn architectural_of(input: RoleInput) -> bool {
    input.work_kind != WorkKind::Other || input.work_type == WorkType::Decision || input.work_type == WorkType::Integration
}

pub open spec fn case_total(cases: Seq<usize>) -> int
    decreases cases.len(),
{
    if cases.len() == 0 {
        0
    } else {
        case_total(cases.drop_last()) + cases.last()
    }
}

/// One plan of at most eight cases is cheap; more than eight plans or more
/// than thirty-two cases is expensive; anything else is moderate.
pub open spec fn verification_cost_of(cases: Seq<usize>) -> VerificationCost {
    if cases.len() == 1 && case_total(cases) <= 8 {
        VerificationCost::Cheap
    } else if cases.len() > 8 || case_total(cases) > 32 {
        VerificationCost::Expensive
    } else {
        VerificationCost::Moderate
    }
}

/// Addition that stops at the largest `usize`.
pub open spec fn saturating(a: int, b: int) -> int {
    if a + b > usize::MAX { usize::MAX as int } else { a + b }
}

/// The context fragments of a packet: two, one per source handle, one per
/// rule of its work, and one per fork, counted in `usize` with saturation.
pub open spec fn fragments_of(input: RoleInput) -> int {
    saturating(
        saturating(
            saturating(2, input.source_handle_count as int),
            match input.rule_count { Some(n) => n as int, None => 0 },
        ),
        input.fork_count as int,
    )
}

fn contains_obligation(v: &[ObligationId], id: ObligationId) -> (r: bool)
    ensures
        r == v@.contains(id),
{
    let mut i: usize = 0;
    while i < v.len()
        invariant
            i <= v@.len(),
            forall|k: int| 0 <= k < i ==> v@[k] != id,
        decreases v@.len() - i,
    {
        if v[i].0 == id.0 {
            assert(v@[i as int] == id);
            return true;
        }
        i += 1;
    }
    false
}

fn contains_subject(v: &[SubjectKey], s: SubjectKey) -> (r: bool)
    ensures
        r == v@.contains(s),
{
    let mut i: usize = 0;
    while i < v.len()
        invariant
            i <= v@.len(),
            forall|k: int| 0 <= k < i ==> v@[k] != s,
        decreases v@.len() - i,
    {
        if v[i].0 == s.0 {
            assert(v@[i as int] == s);
            return true;
        }
        i += 1;
    }
    false
}

/// Assesses the facts a packet's worker role is routed on; a fragment
/// count beyond the `u32` counter is refused.
pub fn packet_role_assessment(input: &RoleInput) -> (r: Result<RoleAssessment, ZapError>)
    requires
        case_total(input.verification_plan_cases@) <= usize::MAX,
    ensures
        r is Ok <==> fragments_of(*input) <= u32::MAX,
        r matches Err(e) ==> e.code == ErrorCode::InvalidValue,
        r matches Ok(a) ==> a == (RoleAssessment {
            deterministic: false,
            architectural: architectural_of(*input),
            novel: novel_of(*input),
            consequence: consequence_of(*input),
            reversible: input.write_subjects@.len() == 0,
            context_fragments: fragments_of(*input) as u32,
            verification_cost: verification_cost_of(input.verification_plan_cases@),
        }),
{
    let mut essential = false;
    let mut k: usize = 0;
    while k < input.obligations.len()
        invariant
            k <= input.obligations@.len(),
            essential == exists|m: int| 0 <= m < k && (#[trigger] input.obligations@[m]).essential
                && input.covered_obligations@.contains(input.obligations@[m].obligation_id),
        decreases input.obligations@.len() - k,
    {
        let row = input.obligations[k];
        if row.essential && contains_obligation(input.covered_obligations, row.obligation_id) {
            essential = true;
        }
        k += 1;
    }
    let consequence = if essential {
        Consequence::High
    } else if input.write_subjects.len() > 0 || input.work_type == WorkType::Change {
        Consequence::Medium
    } else {
        Consequence::Low
    };
    let mut touched = false;
    let mut h: usize = 0;
    while h < input.unresolved_horizon_subjects.len()
        invariant
            h <= input.unresolved_horizon_subjects@.len(),
            touched == exists|m: int| 0 <= m < h && touches(*input, #[trigger] input.unresolved_horizon_subjects@[m]),
        decreases input.unresolved_horizon_subjects@.len() - h,
    {
        let s = input.unresolved_horizon_subjects[h];
        if contains_subject(input.read_subjects, s) || contains_subject(input.write_subjects, s) || s.0 == input.work_subject.0 {
            touched = true;
        }
        h += 1;
    }
    let novel = touched || input.fork_count > 0;
    let architectural = input.work_kind != WorkKind::Other || input.work_type == WorkType::Decision
        || input.work_type == WorkType::Integration;
    let cases = input.verification_plan_cases;
    let mut total: usize = 0;
    let mut c: usize = 0;
    assert(cases@.take(0) =~= Seq::<usize>::empty());
    while c < cases.len()
        invariant
            c <= cases@.len(),
            total == case_total(cases@.take(c as int)),
            case_total(cases@) <= usize::MAX,
        decreases cases@.len() - c,
    {
        assert(cases@.take(c as int + 1).drop_last() =~= cases@.take(c as int));
        proof {
            lemma_case_total_monotone(cases@, c as int + 1, cases@.len() as int);
            assert(cases@.take(cases@.len() as int) =~= cases@);
        }
        total = total + cases[c];
        c += 1;
    }
    assert(cases@.take(cases@.len() as int) =~= cases@);
    let verification_cost = if cases.len() == 1 && total <= 8 {
        VerificationCost::Cheap
    } else if cases.len() > 8 || total > 32 {
        VerificationCost::Expensive
    } else {
        VerificationCost::Moderate
    };
    let rules = match input.rule_count {
        Some(n) => n,
        None => 0,
    };
    let fragments = 2usize.saturating_add(input.source_handle_count).saturating_add(rules).saturating_add(input.fork_count);
    if fragments > u32::MAX as usize {
        return Err(ZapError::new(ErrorCode::InvalidValue));
    }
    Ok(RoleAssessment {
        deterministic: false,
        architectural,
        novel,
        consequence,
        reversible: input.write_subjects.len() == 0,
        context_fragments: fragments as u32,
        verification_cost,
    })
}

proof fn lemma_case_total_monotone(s: Seq<usize>, i: int, j: int)
    requires
        0 <= i <= j <= s.len(),
    ensures
        case_total(s.take(i)) <= case_total(s.take(j)),
    decreases j - i,
{
    if i < j {
        lemma_case_total_monotone(s, i, j - 1);
        assert(s.take(j).drop_last() =~= s.take(j - 1));
    }
}

/// A packet's consequence is high exactly when the contract covers an
/// essential obligation; otherwise medium exactly when it writes a subject
/// or changes work; otherwise low. Its work is architectural exactly when
/// it is of a special kind or a decision or integration.
pub proof fn law_consequence_and_architecture(input: RoleInput)
    ensures
        consequence_of(input) == Consequence::High <==> exists|k: int|
            0 <= k < input.obligations@.len() && (#[trigger] input.obligations@[k]).essential
                && input.covered_obligations@.contains(input.obligations@[k].obligation_id),
        consequence_of(input) == Consequence::Low <==> !(exists|k: int|
            0 <= k < input.obligations@.len() && (#[trigger] input.obligations@[k]).essential
                && input.covered_obligations@.contains(input.obligations@[k].obligation_id))
            && input.write_subjects@.len() == 0 && input.work_type != WorkType::Change,
        architectural_of(input) <==> !(input.work_kind == WorkKind::Other && input.work_type != WorkType::Decision
            && input.work_type != WorkType::Integration),
{
}

/// A packet is novel exactly when the lowering carries forks, or some
/// unresolved horizon lies on a subject the packet reads, a subject it
/// writes, or its own work subject.
pub proof fn law_novel_when_a_touched_horizon_is_unresolved(input: RoleInput)
    ensures
        novel_of(input) <==> (input.fork_count > 0 || exists|k: int|
            0 <= k < input.unresolved_horizon_subjects@.len() && (input.read_subjects@.contains(
                #[trigger] input.unresolved_horizon_subjects@[k],
            ) || input.write_subjects@.contains(input.unresolved_horizon_subjects@[k])
                || input.unresolved_horizon_subjects@[k] == input.work_subject)),
{
}

/// A Senior packet cannot receive production write subjects.
pub fn authorize_packet_role(role: WorkerRole, write_subject_count: usize) -> (r: Result<(), ZapError>)
    ensures
        r is Err <==> role == WorkerRole::Senior && write_subject_count > 0,
        r matches Err(e) ==> e.code == ErrorCode::Unauthorized,
{
    if role == WorkerRole::Senior && write_subject_count > 0 {
        return Err(ZapError::new(ErrorCode::Unauthorized));
    }
    Ok(())
}


/// A lowering as packet derivation reads it: whether it is the current
/// revision, and the work it lowers.
#[derive(Debug)]
pub struct LoweringFacts {
    pub lowering_id: LoweringId,
    pub current: bool,
    pub work_ids: Vec<WorkId>,
}

/// The lowering is current and lowers the work.
pub open spec fn origin_of(l: LoweringFacts, work_id: WorkId) -> bool {
    l.current && l.work_ids@.contains(work_id)
}

/// How many lowerings are current origins of the work.
pub open spec fn origin_count(ls: Seq<LoweringFacts>, work_id: WorkId) -> nat
    decreases ls.len(),
{
    if ls.len() == 0 {
        0
    } else {
        origin_count(ls.drop_last(), work_id) + if origin_of(ls.last(), work_id) { 1nat } else { 0nat }
    }
}

fn lowers_work(l: &LoweringFacts, work_id: WorkId) -> (r: bool)
    ensures
        r == origin_of(*l, work_id),
{
    if !l.current {
        return false;
    }
    let mut i: usize = 0;
    while i < l.work_ids.len()
        invariant
            i <= l.work_ids@.len(),
            l.current,
            forall|k: int| 0 <= k < i ==> l.work_ids@[k] != work_id,
        decreases l.work_ids@.len() - i,
    {
        if l.work_ids[i].0 == work_id.0 {
            assert(l.work_ids@[i as int] == work_id);
            return true;
        }
        i += 1;
    }
    false
}

/// Selects the one current lowering that a packet's work comes from; none,
/// or more than one, is a conflict.
pub fn select_lowering_origin(lowerings: &[LoweringFacts], work_id: WorkId) -> (r: Result<usize, ZapError>)
    ensures
        r is Ok <==> origin_count(lowerings@, work_id) == 1,
        r matches Ok(i) ==> i < lowerings@.len() && origin_of(lowerings@[i as int], work_id),
        r matches Err(e) ==> e.code == ErrorCode::Conflict,
{
    let ghost s = lowerings@;
    let mut count: usize = 0;
    let mut found: usize = 0;
    let mut i: usize = 0;
    assert(s.take(0) =~= Seq::<LoweringFacts>::empty());
    while i < lowerings.len()
        invariant
            i <= s.len(),
            s == lowerings@,
            count == origin_count(s.take(i as int), work_id),
            count <= i,
            count > 0 ==> found < i && origin_of(s[found as int], work_id),
        decreases s.len() - i,
    {
        assert(s.take(i as int + 1).drop_last() =~= s.take(i as int));
        if lowers_work(&lowerings[i], work_id) {
            count += 1;
            found = i;
        }
        i += 1;
    }
    assert(s.take(s.len() as int) =~= s);
    if count != 1 {
        return Err(ZapError::new(ErrorCode::Conflict));
    }
    Ok(found)
}

/// A packet of the store, as its lineage reads it.
#[derive(Clone, Copy, Debug, PartialEq, Eq, Structural)]
pub struct PacketFacts {
    pub packet_id: PacketId,
    pub lowering_id: LoweringId,
    pub work_id: WorkId,
    pub current: bool,
}

/// The first packet of the store with the identity.
pub open spec fn packet_lookup(ps: Seq<PacketFacts>, id: PacketId) -> Option<PacketFacts>
    decreases ps.len(),
{
    if ps.len() == 0 {
        None
    } else if ps[0].packet_id == id {
        Some(ps[0])
    } else {
        packet_lookup(ps.drop_first(), id)
    }
}

/// The packet is a current packet of the lowering's work.
pub open spec fn current_for(p: PacketFacts, lowering_id: LoweringId, work_id: WorkId) -> bool {
    p.current && p.lowering_id == lowering_id && p.work_id == work_id
}

pub open spec fn current_count(ps: Seq<PacketFacts>, lowering_id: LoweringId, work_id: WorkId) -> nat
    decreases ps.len(),
{
    if ps.len() == 0 {
        0
    } else {
        current_count(ps.drop_last(), lowering_id, work_id) + if current_for(ps.last(), lowering_id, work_id) { 1nat } else { 0nat }
    }
}

/// The first current packet of the work, in store order.
pub open spec fn first_current(ps: Seq<PacketFacts>, lowering_id: LoweringId, work_id: WorkId) -> Option<PacketId>
    decreases ps.len(),
{
    if ps.len() == 0 {
        None
    } else {
        match first_current(ps.drop_last(), lowering_id, work_id) {
            Some(id) => Some(id),
            None => if current_for(ps.last(), lowering_id, work_id) { Some(ps.last().packet_id) } else { None },
        }
    }
}

/// Why a lineage reference cannot stand: the packet is missing, or belongs
/// to other work or another lowering.
pub open spec fn lineage_reference_error(ps: Seq<PacketFacts>, reference: Option<PacketId>, lowering_id: LoweringId, work_id: WorkId) -> Option<ErrorCode> {
    match reference {
        None => None,
        Some(id) => match packet_lookup(ps, id) {
            None => Some(ErrorCode::MissingReference),
            Some(p) => if p.work_id != work_id || p.lowering_id != lowering_id { Some(ErrorCode::Conflict) } else { None },
        },
    }
}

/// The refusal of a new packet's identity and lineage: its identity must be
/// new, its work must have at most one current packet, that packet is the
/// one it supersedes, and its parent and superseded packets must exist for
/// the same work and lowering.
pub open spec fn lineage_error(
    ps: Seq<PacketFacts>,
    packet_id: PacketId,
    lowering_id: LoweringId,
    work_id: WorkId,
    parent: Option<PacketId>,
    supersedes: Option<PacketId>,
) -> Option<ErrorCode> {
    if packet_lookup(ps, packet_id) is Some {
        Some(ErrorCode::Conflict)
    } else if current_count(ps, lowering_id, work_id) > 1 {
        Some(ErrorCode::Conflict)
    } else if first_current(ps, lowering_id, work_id) != supersedes {
        Some(ErrorCode::Conflict)
    } else if lineage_reference_error(ps, parent, lowering_id, work_id) is Some {
        lineage_reference_error(ps, parent, lowering_id, work_id)
    } else {
        lineage_reference_error(ps, supersedes, lowering_id, work_id)
    }
}

fn find_packet(ps: &[PacketFacts], id: PacketId) -> (r: Option<PacketFacts>)
    ensures
        r == packet_lookup(ps@, id),
{
    let ghost s = ps@;
    let mut i: usize = 0;
    assert(s.skip(0) =~= s);
    while i < ps.len()
        invariant
            i <= s.len(),
            s == ps@,
            packet_lookup(s.skip(i as int), id) == packet_lookup(s, id),
        decreases s.len() - i,
    {
        assert(s.skip(i as int).drop_first() =~= s.skip(i as int + 1));
        if ps[i].packet_id.0 == id.0 {
            return Some(ps[i]);
        }
        i += 1;
    }
    None
}

fn check_lineage_reference(ps: &[PacketFacts], reference: Option<PacketId>, lowering_id: LoweringId, work_id: WorkId) -> (r: Result<(), ZapError>)
    ensures
        match lineage_reference_error(ps@, reference, lowering_id, work_id) {
            Some(c) => r matches Err(e) && e.code == c,
            None => r is Ok,
        },
{
    match reference {
        None => Ok(()),
        Some(id) => match find_packet(ps, id) {
            None => Err(ZapError::new(ErrorCode::MissingReference)),
            Some(p) => {
                if p.work_id.0 != work_id.0 || p.lowering_id.0 != lowering_id.0 {
                    Err(ZapError::new(ErrorCode::Conflict))
                } else {
                    Ok(())
                }
            },
        },
    }
}

/// Checks a new packet's identity and its lineage against the packets of
/// the store.
pub fn check_packet_lineage(
    packets: &[PacketFacts],
    packet_id: PacketId,
    lowering_id: LoweringId,
    work_id: WorkId,
    parent: Option<PacketId>,
    supersedes: Option<PacketId>,
) -> (r: Result<(), ZapError>)
    ensures
        match lineage_error(packets@, packet_id, lowering_id, work_id, parent, supersedes) {
            Some(c) => r matches Err(e) && e.code == c,
            None => r is Ok,
        },
{
    if find_packet(packets, packet_id).is_some() {
        return Err(ZapError::new(ErrorCode::Conflict));
    }
    let ghost s = packets@;
    let mut count: usize = 0;
    let mut first: Option<PacketId> = None;
    let mut i: usize = 0;
    assert(s.take(0) =~= Seq::<PacketFacts>::empty());
    while i < packets.len()
        invariant
            i <= s.len(),
            s == packets@,
            count == current_count(s.take(i as int), lowering_id, work_id),
            count <= i,
            first == first_current(s.take(i as int), lowering_id, work_id),
        decreases s.len() - i,
    {
        assert(s.take(i as int + 1).drop_last() =~= s.take(i as int));
        let p = packets[i];
        if p.current && p.lowering_id.0 == lowering_id.0 && p.work_id.0 == work_id.0 {
            count += 1;
            if first.is_none() {
                first = Some(p.packet_id);
            }
        }
        i += 1;
    }
    assert(s.take(s.len() as int) =~= s);
    if count > 1 {
        return Err(ZapError::new(ErrorCode::Conflict));
    }
    let same = match (first, supersedes) {
        (Some(a), Some(b)) => a.0 == b.0,
        (None, None) => true,
        _ => false,
    };
    if !same {
        return Err(ZapError::new(ErrorCode::Conflict));
    }
    check_lineage_reference(packets, parent, lowering_id, work_id)?;
    check_lineage_reference(packets, supersedes, lowering_id, work_id)
}

/// How a lowering executes one of its works: as a container of other work,
/// or as executable work under a pinned task contract.
#[derive(Clone, Copy, Debug, PartialEq, Eq, Structural)]
pub enum PacketExecution {
    Container,
    Executable { contract_id: ContractId, contract_version: Revision, contract_digest: DigestValue, validation_generation: u64 },
}

/// Why a packet cannot be rendered from its origin, if it cannot: the
/// strategy, the work, its lowering binding or the pinned contract is
/// missing; the strategy is no longer current; the work is a container; or
/// the work and contract no longer match what the lowering pinned.
pub open spec fn packet_origin_error(
    strategy: Option<PlanningRevisionState>,
    work: Option<WorkRecord>,
    binding: Option<PacketExecution>,
    contract: Option<ContractRecord>,
) -> Option<ErrorCode> {
    match strategy {
        None => Some(ErrorCode::MissingReference),
        Some(state) => if state != PlanningRevisionState::Current {
            Some(ErrorCode::Conflict)
        } else {
            match work {
                None => Some(ErrorCode::MissingReference),
                Some(w) => match binding {
                    None => Some(ErrorCode::MissingReference),
                    Some(PacketExecution::Container) => Some(ErrorCode::Conflict),
                    Some(PacketExecution::Executable { contract_id, contract_version, contract_digest, validation_generation }) => match contract {
                        None => Some(ErrorCode::MissingReference),
                        Some(c) => if !c.active || c.contract_id != contract_id || c.version != contract_version
                            || c.contract_digest != contract_digest || c.work_id != w.work_id
                            || w.validation_generation != validation_generation {
                            Some(ErrorCode::Conflict)
                        } else {
                            None
                        },
                    },
                },
            }
        },
    }
}

/// Checks that a packet's work can still be rendered from its lowering
/// origin. `strategy` is the state of the lowering's strategy, `work` the
/// stored work, `binding` how the lowering executes the work, and
/// `contract` the stored contract that the binding pins, each if stored.
pub fn check_packet_origin(
    strategy: Option<PlanningRevisionState>,
    work: Option<WorkRecord>,
    binding: Option<PacketExecution>,
    contract: Option<ContractRecord>,
) -> (r: Result<(), ZapError>)
    ensures
        match packet_origin_error(strategy, work, binding, contract) {
            None => r is Ok,
            Some(c) => r == Err::<(), ZapError>(ZapError { code: c, detail: ErrorDetail::Empty }),
        },
{
    let state = match strategy {
        None => return Err(ZapError::new(ErrorCode::MissingReference)),
        Some(s) => s,
    };
    if !matches!(state, PlanningRevisionState::Current) {
        return Err(ZapError::new(ErrorCode::Conflict));
    }
    let w = match work {
        None => return Err(ZapError::new(ErrorCode::MissingReference)),
        Some(w) => w,
    };
    let (contract_id, contract_version, contract_digest, validation_generation) = match binding {
        None => return Err(ZapError::new(ErrorCode::MissingReference)),
        Some(PacketExecution::Container) => return Err(ZapError::new(ErrorCode::Conflict)),
        Some(PacketExecution::Executable { contract_id, contract_version, contract_digest, validation_generation }) => (
            contract_id,
            contract_version,
            contract_digest,
            validation_generation,
        ),
    };
    let c = match contract {
        None => return Err(ZapError::new(ErrorCode::MissingReference)),
        Some(c) => c,
    };
    if !c.active || c.contract_id.0 != contract_id.0 || c.version.0 != contract_version.0 || c.contract_digest.0 != contract_digest.0
        || c.work_id.0 != w.work_id.0 || w.validation_generation != validation_generation
    {
        return Err(ZapError::new(ErrorCode::Conflict));
    }
    Ok(())
}

} // verus!
