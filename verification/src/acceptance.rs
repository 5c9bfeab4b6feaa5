//! Central acceptance: whether a set of adjudicated evidence collectively
//! proves a claim about work, and the separation of producer and acceptor.
use vstd::prelude::*;

use crate::authority::ActorRef;
use crate::error::{ErrorCode, ZapError};
use crate::ids::{EvidenceId, ObligationId, OutcomeId, WorkId};

verus! {

/// A maturity stage, by the integer it is ordered by.
#[derive(Clone, Copy, Debug, PartialEq, Eq, Structural)]
pub struct MaturityStage(pub u64);

/// A work item at one validation generation.
#[derive(Clone, Copy, Debug, PartialEq, Eq, Structural)]
pub struct WorkGeneration {
    pub work_id: WorkId,
    pub generation: u64,
}

/// The central adjudication of one piece of evidence: what it applies to,
/// the generations it was observed at, and whether it observed a pass.
#[derive(Debug)]
pub struct Adjudication {
    pub evidence_id: EvidenceId,
    pub outcome_id: OutcomeId,
    pub work_ids: Vec<WorkId>,
    pub stage: Option<MaturityStage>,
    pub obligation_ids: Vec<ObligationId>,
    pub validation_generations: Vec<WorkGeneration>,
    pub observed_pass: bool,
}

/// What an acceptance claims: an outcome's work, at a generation and
/// perhaps a stage, meets the listed obligations.
pub struct ProofClaim<'a> {
    pub outcome_id: OutcomeId,
    pub work_id: WorkId,
    pub stage: Option<MaturityStage>,
    pub obligation_ids: &'a [ObligationId],
    pub validation_generation: u64,
    pub require_pass: bool,
}

pub open spec fn evidence_sorted_unique_nonempty(s: Seq<EvidenceId>) -> bool {
    s.len() > 0 && forall|i: int, j: int| 0 <= i < j < s.len() ==> (#[trigger] s[i]).0 < (#[trigger] s[j]).0
}

pub open spec fn obligations_sorted_unique_nonempty(s: Seq<ObligationId>) -> bool {
    s.len() > 0 && forall|i: int, j: int| 0 <= i < j < s.len() ==> (#[trigger] s[i]).0 < (#[trigger] s[j]).0
}

/// The first adjudication of the evidence.
pub open spec fn adjudication_of(rows: Seq<Adjudication>, id: EvidenceId) -> Option<Adjudication>
    decreases rows.len(),
{
    if rows.len() == 0 {
        None
    } else if rows[0].evidence_id == id {
        Some(rows[0])
    } else {
        adjudication_of(rows.drop_first(), id)
    }
}

/// The adjudication applies to the claim: same outcome, the claimed work at
/// the claimed generation, and the claimed stage if one is claimed; and it
/// observed a pass when the claim requires one.
pub open spec fn supports(row: Adjudication, claim: ProofClaim) -> bool {
    &&& row.outcome_id == claim.outcome_id
    &&& row.work_ids@.contains(claim.work_id)
    &&& row.validation_generations@.contains(WorkGeneration { work_id: claim.work_id, generation: claim.validation_generation })
    &&& (claim.stage matches Some(s) ==> row.stage == Some(s))
    &&& (claim.require_pass ==> row.observed_pass)
}

/// Every piece of evidence has a central adjudication that supports the claim.
pub open spec fn all_supported(evidence: Seq<EvidenceId>, rows: Seq<Adjudication>, claim: ProofClaim) -> bool {
    forall|k: int| 0 <= k < evidence.len() ==> (adjudication_of(rows, #[trigger] evidence[k]) matches Some(row) && supports(row, claim))
}

/// Some piece of the evidence covers the obligation.
pub open spec fn covered(evidence: Seq<EvidenceId>, rows: Seq<Adjudication>, o: ObligationId) -> bool {
    exists|k: int| 0 <= k < evidence.len() && (adjudication_of(rows, #[trigger] evidence[k]) matches Some(row) && row.obligation_ids@.contains(o))
}

/// Why the evidence does not prove the claim, if it does not: malformed
/// references, evidence without a supporting adjudication, or an obligation
/// no adjudication covers.
pub open spec fn proof_error(evidence: Seq<EvidenceId>, rows: Seq<Adjudication>, claim: ProofClaim) -> Option<ErrorCode> {
    if !evidence_sorted_unique_nonempty(evidence) || !obligations_sorted_unique_nonempty(claim.obligation_ids@) {
        Some(ErrorCode::InvalidValue)
    } else if !all_supported(evidence, rows, claim) {
        Some(ErrorCode::NeedsEvidence)
    } else if exists|m: int| 0 <= m < claim.obligation_ids@.len() && !covered(evidence, rows, #[trigger] claim.obligation_ids@[m]) {
        Some(ErrorCode::NeedsEvidence)
    } else {
        None
    }
}

fn find_adjudication<'a>(rows: &'a [Adjudication], id: EvidenceId) -> (r: Option<&'a Adjudication>)
    ensures
        match adjudication_of(rows@, id) {
            Some(row) => r matches Some(x) && *x == row,
            None => r is None,
        },
{
    let ghost s = rows@;
    let mut i: usize = 0;
    assert(s.skip(0) =~= s);
    while i < rows.len()
        invariant
            i <= s.len(),
            s == rows@,
            adjudication_of(s.skip(i as int), id) == adjudication_of(s, id),
        decreases s.len() - i,
    {
        assert(s.skip(i as int).drop_first() =~= s.skip(i as int + 1));
        if rows[i].evidence_id.0 == id.0 {
            return Some(&rows[i]);
        }
        i += 1;
    }
    None
}

fn has_work(v: &Vec<WorkId>, w: WorkId) -> (r: bool)
    ensures
        r == v@.contains(w),
{
    let mut i: usize = 0;
    while i < v.len()
        invariant
            i <= v@.len(),
            forall|k: int| 0 <= k < i ==> v@[k] != w,
        decreases v@.len() - i,
    {
        if v[i].0 == w.0 {
            assert(v@[i as int] == w);
            return true;
        }
        i += 1;
    }
    false
}

fn has_generation(v: &Vec<WorkGeneration>, g: WorkGeneration) -> (r: bool)
    ensures
        r == v@.contains(g),
{
    let mut i: usize = 0;
    while i < v.len()
        invariant
            i <= v@.len(),
            forall|k: int| 0 <= k < i ==> v@[k] != g,
        decreases v@.len() - i,
    {
        if v[i].work_id.0 == g.work_id.0 && v[i].generation == g.generation {
            assert(v@[i as int] == g);
            return true;
        }
        i += 1;
    }
    false
}

fn has_obligation(v: &Vec<ObligationId>, o: ObligationId) -> (r: bool)
    ensures
        r == v@.contains(o),
{
    let mut i: usize = 0;
    while i < v.len()
        invariant
            i <= v@.len(),
            forall|k: int| 0 <= k < i ==> v@[k] != o,
        decreases v@.len() - i,
    {
        if v[i].0 == o.0 {
            assert(v@[i as int] == o);
            return true;
        }
        i += 1;
    }
    false
}

fn supports_exec(row: &Adjudication, claim: &ProofClaim) -> (r: bool)
    ensures
        r == supports(*row, *claim),
{
    let stage_ok = match claim.stage {
        Some(s) => match row.stage {
            Some(t) => s.0 == t.0,
            None => false,
        },
        None => true,
    };
    row.outcome_id.0 == claim.outcome_id.0 && has_work(&row.work_ids, claim.work_id)
        && has_generation(&row.validation_generations, WorkGeneration { work_id: claim.work_id, generation: claim.validation_generation })
        && stage_ok && (!claim.require_pass || row.observed_pass)
}

fn evidence_well_formed(s: &[EvidenceId]) -> (r: bool)
    ensures
        r == evidence_sorted_unique_nonempty(s@),
{
    if s.len() == 0 {
        return false;
    }
    let mut i: usize = 1;
    while i < s.len()
        invariant
            1 <= i <= s@.len(),
            forall|a: int, b: int| 0 <= a < b < i ==> (#[trigger] s@[a]).0 < (#[trigger] s@[b]).0,
        decreases s@.len() - i,
    {
        if s[i - 1].0 >= s[i].0 {
            return false;
        }
        i += 1;
    }
    true
}

fn obligations_well_formed(s: &[ObligationId]) -> (r: bool)
    ensures
        r == obligations_sorted_unique_nonempty(s@),
{
    if s.len() == 0 {
        return false;
    }
    let mut i: usize = 1;
    while i < s.len()
        invariant
            1 <= i <= s@.len(),
            forall|a: int, b: int| 0 <= a < b < i ==> (#[trigger] s@[a]).0 < (#[trigger] s@[b]).0,
        decreases s@.len() - i,
    {
        if s[i - 1].0 >= s[i].0 {
            return false;
        }
        i += 1;
    }
    true
}

/// Validates that the evidence, each adjudicated centrally for the claimed
/// outcome, work, generation and stage (and passing when required),
/// collectively covers every claimed obligation.
pub fn validate_collective_proof(evidence_ids: &[EvidenceId], adjudications: &[Adjudication], claim: ProofClaim) -> (r: Result<(), ZapError>)
    ensures
        match proof_error(evidence_ids@, adjudications@, claim) {
            Some(c) => r matches Err(e) && e.code == c,
            None => r is Ok,
        },
{
    if !evidence_well_formed(evidence_ids) || !obligations_well_formed(claim.obligation_ids) {
        return Err(ZapError::new(ErrorCode::InvalidValue));
    }
    let ghost ev = evidence_ids@;
    let ghost rows = adjudications@;
    let mut k: usize = 0;
    while k < evidence_ids.len()
        invariant
            k <= ev.len(),
            ev == evidence_ids@,
            rows == adjudications@,
            evidence_sorted_unique_nonempty(ev),
            obligations_sorted_unique_nonempty(claim.obligation_ids@),
            forall|x: int| 0 <= x < k ==> (adjudication_of(rows, #[trigger] ev[x]) matches Some(row) && supports(row, claim)),
        decreases ev.len() - k,
    {
        match find_adjudication(adjudications, evidence_ids[k]) {
            Some(row) => {
                if !supports_exec(row, &claim) {
                    assert(!all_supported(ev, rows, claim)) by {
                        assert(!(adjudication_of(rows, ev[k as int]) matches Some(row) && supports(row, claim)));
                    }
                    return Err(ZapError::new(ErrorCode::NeedsEvidence));
                }
            },
            None => {
                assert(!all_supported(ev, rows, claim)) by {
                    assert(adjudication_of(rows, ev[k as int]) is None);
                }
                return Err(ZapError::new(ErrorCode::NeedsEvidence));
            },
        }
        k += 1;
    }
    assert(all_supported(ev, rows, claim));
    let obligations = claim.obligation_ids;
    let mut m: usize = 0;
    while m < obligations.len()
        invariant
            m <= obligations@.len(),
            obligations@ == claim.obligation_ids@,
            ev == evidence_ids@,
            rows == adjudications@,
            evidence_sorted_unique_nonempty(ev),
            obligations_sorted_unique_nonempty(claim.obligation_ids@),
            all_supported(ev, rows, claim),
            forall|y: int| 0 <= y < m ==> covered(ev, rows, #[trigger] obligations@[y]),
        decreases obligations@.len() - m,
    {
        let o = obligations[m];
        let mut found = false;
        let mut e: usize = 0;
        while e < evidence_ids.len()
            invariant
                e <= ev.len(),
                ev == evidence_ids@,
                rows == adjudications@,
                found ==> covered(ev, rows, o),
                !found ==> forall|x: int| 0 <= x < e ==> !(adjudication_of(rows, #[trigger] ev[x]) matches Some(row) && row.obligation_ids@.contains(o)),
            decreases ev.len() - e,
        {
            match find_adjudication(adjudications, evidence_ids[e]) {
                Some(row) => {
                    if has_obligation(&row.obligation_ids, o) {
                        assert(adjudication_of(rows, ev[e as int]) matches Some(r) && r.obligation_ids@.contains(o));
                        found = true;
                    }
                },
                None => {},
            }
            e += 1;
        }
        if !found {
            assert(!covered(ev, rows, obligations@[m as int]));
            return Err(ZapError::new(ErrorCode::NeedsEvidence));
        }
        m += 1;
    }
    Ok(())
}

/// The producer of a candidate, by the operation that produced it.
#[derive(Clone, Copy, Debug, PartialEq, Eq, Structural)]
pub struct ProducerRef {
    pub actor: ActorRef,
}

/// The exact operation that produced a candidate cannot accept it.
pub fn validate_producer_acceptor(producer: &ProducerRef, acceptor: &ActorRef) -> (r: Result<(), ZapError>)
    ensures
        r is Err <==> producer.actor == *acceptor,
        r matches Err(e) ==> e.code == ErrorCode::Unauthorized,
{
    if producer.actor == *acceptor {
        return Err(ZapError::new(ErrorCode::Unauthorized));
    }
    Ok(())
}

} // verus!
