//! The paged information-opportunity query: it recommends, in index order and
//! within bounded limits, the opportunities recorded for one decision.
use vstd::prelude::*;

use crate::error::{ErrorCode, ErrorDetail, ZapError};
use crate::ids::{BaseId, DecisionId, InformationOpportunityId, Revision, StoreId};
use crate::information::{
    CurrentProofSet, InformationOpportunityRecord, InformationRecommendation, InformationSelectionRecord,
    OpportunityFreshness, RecOutcome, SourceApplicabilityStatus, recommend_opportunity, recommendation_is,
    recommendation_outcome,
};

verus! {

/// The store, query epoch and revision a query reads.
#[derive(Clone, Copy, Debug, PartialEq, Eq, Structural)]
pub struct QuerySnapshotFacts {
    pub store_id: StoreId,
    pub base_id: BaseId,
    pub query_epoch: u64,
    pub revision: Revision,
}

/// Where a previous page stopped.
#[derive(Clone, Copy, Debug, PartialEq, Eq, Structural)]
pub struct InformationOpportunityCursor {
    pub store_id: StoreId,
    pub base_id: BaseId,
    pub query_epoch: u64,
    pub snapshot_revision: Revision,
    pub decision_id: DecisionId,
    pub last_opportunity_id: InformationOpportunityId,
}

/// The decision to recommend for, where to resume, and the page bounds.
#[derive(Clone, Copy, Debug, PartialEq, Eq, Structural)]
pub struct InformationOpportunityQueryInput {
    pub decision_id: DecisionId,
    pub cursor: Option<InformationOpportunityCursor>,
    pub limit: u32,
    pub operation_budget: u32,
}

/// One page of recommendations; it is complete when no opportunity is left
/// after it.
pub struct InformationOpportunityQueryResult {
    pub decision_id: DecisionId,
    pub recommendations: Vec<InformationRecommendation>,
    pub examined: u32,
    pub next: Option<InformationOpportunityCursor>,
    pub through_revision: Revision,
    pub complete: bool,
}

/// A page is bounded: a positive limit, and at least two budget units per
/// recommended opportunity.
pub open spec fn limits_valid(input: InformationOpportunityQueryInput) -> bool {
    input.limit > 0 && input.operation_budget >= 2 && input.limit <= input.operation_budget / 2
}

/// The cursor was issued for this snapshot and decision.
pub open spec fn cursor_fits(c: InformationOpportunityCursor, s: QuerySnapshotFacts, decision: DecisionId) -> bool {
    c.store_id == s.store_id && c.base_id == s.base_id && c.query_epoch == s.query_epoch
        && c.snapshot_revision == s.revision && c.decision_id == decision
}

/// The first index of an opportunity, if any.
pub open spec fn position_of(rows: Seq<InformationOpportunityRecord>, id: InformationOpportunityId, from: int) -> Option<int>
    decreases rows.len() - from,
{
    if from < 0 || from >= rows.len() {
        None
    } else if rows[from].opportunity_id == id {
        Some(from)
    } else {
        position_of(rows, id, from + 1)
    }
}

/// Where the page starts: at the beginning, or right after the cursor's last
/// opportunity; a cursor for another snapshot or decision, or naming no
/// opportunity, is stale.
pub open spec fn page_start(input: InformationOpportunityQueryInput, s: QuerySnapshotFacts, rows: Seq<InformationOpportunityRecord>) -> Option<int> {
    match input.cursor {
        None => Some(0),
        Some(c) => if !cursor_fits(c, s, input.decision_id) {
            None
        } else {
            match position_of(rows, c.last_opportunity_id, 0) {
                Some(i) => Some(i + 1),
                None => None,
            }
        },
    }
}

/// How many opportunities a page starting at `start` examines.
pub open spec fn window(start: int, total: int, limit: int) -> int {
    if total - start < limit { total - start } else { limit }
}

/// A row needs the current-proof index when it names satisfying evidence, is
/// current, and all its sources apply.
pub open spec fn needs_proof(row: InformationOpportunityRecord, fresh: OpportunityFreshness) -> bool {
    row.content.satisfying_evidence_ids@.len() > 0 && fresh == OpportunityFreshness::Current
        && forall|k: int| 0 <= k < row.content.sources@.len() ==> (#[trigger] row.content.sources@[k]).applicability == SourceApplicabilityStatus::Applicable
}

/// Whether some row of the page needs the current-proof index.
pub open spec fn page_needs_proof(rows: Seq<InformationOpportunityRecord>, fresh: Seq<OpportunityFreshness>, start: int, n: int) -> bool {
    exists|k: int| start <= k < start + n && needs_proof(#[trigger] rows[k], fresh[k])
}

/// The proof index handed to every recommendation of the page.
pub open spec fn page_proof(rows: Seq<InformationOpportunityRecord>, fresh: Seq<OpportunityFreshness>, start: int, n: int, proof_set: Option<CurrentProofSet>) -> Option<CurrentProofSet> {
    if page_needs_proof(rows, fresh, start, n) { proof_set } else { None }
}

/// The outcome for row `k` of the page.
pub open spec fn row_outcome(
    rows: Seq<InformationOpportunityRecord>,
    fresh: Seq<OpportunityFreshness>,
    selections: Seq<Option<InformationSelectionRecord>>,
    pset: Option<CurrentProofSet>,
    k: int,
) -> Result<RecOutcome, ErrorCode> {
    recommendation_outcome(rows[k], rows, fresh[k], fresh, selections[k], pset)
}

fn applies(row: &InformationOpportunityRecord, fresh: OpportunityFreshness) -> (r: bool)
    ensures
        r == needs_proof(*row, fresh),
{
    if row.content.satisfying_evidence_ids.len() == 0 || !matches!(fresh, OpportunityFreshness::Current) {
        return false;
    }
    let mut k: usize = 0;
    while k < row.content.sources.len()
        invariant
            k <= row.content.sources.len(),
            forall|m: int| 0 <= m < k ==> (#[trigger] row.content.sources@[m]).applicability == SourceApplicabilityStatus::Applicable,
        decreases row.content.sources.len() - k,
    {
        if !matches!(row.content.sources[k].applicability, SourceApplicabilityStatus::Applicable) {
            return false;
        }
        k += 1;
    }
    true
}

fn find_position(rows: &[InformationOpportunityRecord], id: InformationOpportunityId) -> (r: Option<usize>)
    ensures
        match position_of(rows@, id, 0) {
            Some(i) => r == Some(i as usize) && i < rows@.len(),
            None => r is None,
        },
{
    let mut p: usize = 0;
    while p < rows.len()
        invariant
            p <= rows.len(),
            position_of(rows@, id, 0) == position_of(rows@, id, p as int),
        decreases rows.len() - p,
    {
        if rows[p].opportunity_id.0 == id.0 {
            return Some(p);
        }
        p += 1;
    }
    None
}

proof fn lemma_position_in_range(rows: Seq<InformationOpportunityRecord>, id: InformationOpportunityId, from: int)
    requires
        0 <= from,
    ensures
        position_of(rows, id, from) matches Some(i) ==> from <= i < rows.len(),
    decreases rows.len() - from,
{
    if from < rows.len() && rows[from].opportunity_id != id {
        lemma_position_in_range(rows, id, from + 1);
    }
}

/// A recommendation answers a row's outcome when the outcome is a
/// recommendation and the recommendation states it.
pub open spec fn answers(rec: InformationRecommendation, opp: InformationOpportunityRecord, out: Result<RecOutcome, ErrorCode>) -> bool {
    out matches Ok(o) && recommendation_is(rec, opp, o)
}

/// Some row of the page has an error outcome with this code.
pub open spec fn page_fails_with(
    rows: Seq<InformationOpportunityRecord>,
    fresh: Seq<OpportunityFreshness>,
    selections: Seq<Option<InformationSelectionRecord>>,
    pset: Option<CurrentProofSet>,
    start: int,
    n: int,
    code: ErrorCode,
) -> bool {
    exists|k: int| #![trigger row_outcome(rows, fresh, selections, pset, k)]
        start <= k < start + n && (row_outcome(rows, fresh, selections, pset, k) matches Err(c) && code == c)
}

/// The proof index behind a reference, if any.
pub open spec fn owned_proof(p: Option<&CurrentProofSet>) -> Option<CurrentProofSet> {
    match p {
        Some(q) => Some(*q),
        None => None,
    }
}

/// Recommends the `n` opportunities of a page that starts at `start`.
fn recommend_page(
    rows: &[InformationOpportunityRecord],
    freshness: &[OpportunityFreshness],
    selections: &[Option<InformationSelectionRecord>],
    chosen: Option<&CurrentProofSet>,
    start: usize,
    n: usize,
) -> (r: Result<Vec<InformationRecommendation>, ZapError>)
    requires
        start + n <= rows.len(),
        freshness@.len() == rows@.len(),
        selections@.len() == rows@.len(),
    ensures
        r matches Ok(recs) ==> recs@.len() == n && forall|m: int| 0 <= m < n ==> answers(#[trigger] recs@[m], rows@[start + m], row_outcome(rows@, freshness@, selections@, owned_proof(chosen), start + m)),
        r matches Err(e) ==> page_fails_with(rows@, freshness@, selections@, owned_proof(chosen), start as int, n as int, e.code),
{
    let ghost g_proof = owned_proof(chosen);
    let mut recommendations: Vec<InformationRecommendation> = Vec::new();
    let mut j: usize = 0;
    while j < n
        invariant
            j <= n,
            start + n <= rows.len(),
            freshness@.len() == rows@.len(),
            selections@.len() == rows@.len(),
            g_proof == owned_proof(chosen),
            recommendations@.len() == j,
            forall|m: int| 0 <= m < j ==> answers(#[trigger] recommendations@[m], rows@[start + m], row_outcome(rows@, freshness@, selections@, g_proof, start + m)),
        decreases n - j,
    {
        let i = start + j;
        let selected: Option<&InformationSelectionRecord> = match &selections[i] {
            Some(s) => Some(s),
            None => None,
        };
        assert((match selected { Some(s) => Some(*s), None => None }) == selections@[i as int]);
        let rec = recommend_opportunity(&rows[i], rows, freshness[i], freshness, selected, chosen);
        match rec {
            Err(e) => {
                assert(row_outcome(rows@, freshness@, selections@, g_proof, i as int) matches Err(c) && e.code == c);
                assert(page_fails_with(rows@, freshness@, selections@, g_proof, start as int, n as int, e.code));
                return Err(e);
            },
            Ok(rec) => {
                let ghost old_recs = recommendations@;
                let ghost gr = rec;
                assert(answers(gr, rows@[i as int], row_outcome(rows@, freshness@, selections@, g_proof, i as int)));
                recommendations.push(rec);
                assert forall|m: int| 0 <= m < j + 1 implies answers(#[trigger] recommendations@[m], rows@[start + m], row_outcome(rows@, freshness@, selections@, g_proof, start + m)) by {
                    if m < j {
                        assert(recommendations@[m] == old_recs[m]);
                    } else {
                        assert(recommendations@[m] == gr);
                    }
                }
            },
        }
        j += 1;
    }
    Ok(recommendations)
}

/// The information-opportunity query over the opportunities indexed for a
/// decision (`rows`, in index order), with each row's freshness and current
/// selection, and the current-proof index when the store can provide it.
pub struct InformationOpportunityQuery;

impl InformationOpportunityQuery {
    #[verifier::loop_isolation(false)]
    pub fn execute(
        &self,
        snapshot: &QuerySnapshotFacts,
        input: &InformationOpportunityQueryInput,
        rows: &[InformationOpportunityRecord],
        freshness: &[OpportunityFreshness],
        selections: &[Option<InformationSelectionRecord>],
        proof_set: Option<&CurrentProofSet>,
    ) -> (r: Result<InformationOpportunityQueryResult, ZapError>)
        requires
            freshness@.len() == rows@.len(),
            selections@.len() == rows@.len(),
        ensures
            !limits_valid(*input) ==> r == Err::<InformationOpportunityQueryResult, ZapError>(ZapError { code: ErrorCode::InvalidValue, detail: ErrorDetail::Empty }),
            limits_valid(*input) && (exists|k: int| 0 <= k < rows@.len() && (#[trigger] rows@[k]).content.decision_id != input.decision_id)
                ==> r == Err::<InformationOpportunityQueryResult, ZapError>(ZapError { code: ErrorCode::CorruptStore, detail: ErrorDetail::Empty }),
            limits_valid(*input) && (forall|k: int| 0 <= k < rows@.len() ==> (#[trigger] rows@[k]).content.decision_id == input.decision_id)
                && page_start(*input, *snapshot, rows@) is None
                ==> r == Err::<InformationOpportunityQueryResult, ZapError>(ZapError { code: ErrorCode::StaleRevision, detail: ErrorDetail::Empty }),
            r matches Ok(res) ==> limits_valid(*input) && (page_start(*input, *snapshot, rows@) matches Some(start) && ({
                let n = window(start, rows@.len() as int, input.limit as int);
                let pset = page_proof(rows@, freshness@, start, n, match proof_set { Some(p) => Some(*p), None => None });
                &&& res.decision_id == input.decision_id
                &&& res.through_revision == snapshot.revision
                &&& res.complete == (start + n >= rows@.len())
                &&& res.examined == n
                &&& res.recommendations@.len() == n
                &&& forall|k: int| 0 <= k < n ==> answers(#[trigger] res.recommendations@[k], rows@[start + k], row_outcome(rows@, freshness@, selections@, pset, start + k))
                &&& if start + n < rows@.len() {
                    res.next == Some(InformationOpportunityCursor {
                        store_id: snapshot.store_id,
                        base_id: snapshot.base_id,
                        query_epoch: snapshot.query_epoch,
                        snapshot_revision: snapshot.revision,
                        decision_id: input.decision_id,
                        last_opportunity_id: rows@[start + n - 1].opportunity_id,
                    })
                } else {
                    res.next is None
                }
            })),
            r matches Err(e) ==> (limits_valid(*input) && (forall|k: int| 0 <= k < rows@.len() ==> (#[trigger] rows@[k]).content.decision_id == input.decision_id)
                ==> (page_start(*input, *snapshot, rows@) matches Some(start) ==> ({
                    let n = window(start, rows@.len() as int, input.limit as int);
                    let pset = page_proof(rows@, freshness@, start, n, match proof_set { Some(p) => Some(*p), None => None });
                    page_fails_with(rows@, freshness@, selections@, pset, start, n, e.code)
                }))),
    {
        if input.limit == 0 || input.operation_budget < 2 || input.limit > input.operation_budget / 2 {
            return Err(ZapError::new(ErrorCode::InvalidValue));
        }
        let mut k: usize = 0;
        while k < rows.len()
            invariant
                k <= rows.len(),
                forall|m: int| 0 <= m < k ==> (#[trigger] rows@[m]).content.decision_id == input.decision_id,
            decreases rows.len() - k,
        {
            if rows[k].content.decision_id.0 != input.decision_id.0 {
                return Err(ZapError::new(ErrorCode::CorruptStore));
            }
            k += 1;
        }
        assert(forall|m: int| 0 <= m < rows@.len() ==> (#[trigger] rows@[m]).content.decision_id == input.decision_id);
        let start: usize = match input.cursor {
            None => 0,
            Some(c) => {
                if c.store_id.0 != snapshot.store_id.0 || c.base_id.0 != snapshot.base_id.0 || c.query_epoch != snapshot.query_epoch
                    || c.snapshot_revision.0 != snapshot.revision.0 || c.decision_id.0 != input.decision_id.0
                {
                    return Err(ZapError::new(ErrorCode::StaleRevision));
                }
                let found = find_position(rows, c.last_opportunity_id);
                proof {
                    lemma_position_in_range(rows@, c.last_opportunity_id, 0);
                }
                match found {
                    None => {
                        return Err(ZapError::new(ErrorCode::StaleRevision));
                    },
                    Some(i) => i + 1,
                }
            },
        };
        let ghost g_start = start as int;
        assert(page_start(*input, *snapshot, rows@) == Some(g_start));
        let remaining: usize = rows.len() - start;
        let n: usize = if remaining < input.limit as usize { remaining } else { input.limit as usize };
        assert(n as int == window(g_start, rows@.len() as int, input.limit as int));
        let mut needed = false;
        let mut q: usize = 0;
        while q < n
            invariant
                q <= n,
                start + n <= rows.len(),
                freshness@.len() == rows@.len(),
                needed == (exists|m: int| start <= m < start + q && needs_proof(#[trigger] rows@[m], freshness@[m])),
            decreases n - q,
        {
            if applies(&rows[start + q], freshness[start + q]) {
                needed = true;
            }
            q += 1;
        }
        let ghost full = match proof_set { Some(p) => Some(*p), None => None };
        let chosen: Option<&CurrentProofSet> = if needed { proof_set } else { None };
        let ghost g_proof = owned_proof(chosen);
        assert(g_proof == page_proof(rows@, freshness@, g_start, n as int, full));
        let recommendations = match recommend_page(rows, freshness, selections, chosen, start, n) {
            Err(e) => {
                assert(owned_proof(chosen) == page_proof(rows@, freshness@, g_start, n as int, full));
                return Err(e);
            },
            Ok(v) => v,
        };
        let examined: u32 = n as u32;
        let next = if start + n < rows.len() {
            Some(InformationOpportunityCursor {
                store_id: snapshot.store_id,
                base_id: snapshot.base_id,
                query_epoch: snapshot.query_epoch,
                snapshot_revision: snapshot.revision,
                decision_id: input.decision_id,
                last_opportunity_id: rows[start + n - 1].opportunity_id,
            })
        } else {
            None
        };
        let complete = next.is_none();
        Ok(InformationOpportunityQueryResult {
            decision_id: input.decision_id,
            recommendations,
            examined,
            next,
            through_revision: snapshot.revision,
            complete,
        })
    }
}

} // verus!
