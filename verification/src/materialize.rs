//! Materializing a lowered graph: which submitted work and contracts are
//! inserted, left unchanged or replaced, and the exact compare-and-swap a
//! review-caused relowering of existing work must consume.
use vstd::prelude::*;

use crate::error::{ErrorCode, ErrorDetail, ZapError};
use crate::keyed::{insert_sorted, key_le, keys_sorted, Keyed};
use crate::ids::{AttemptId, CandidateId, ContractId, DigestValue, JobId, LoweringId, ObligationId, PacketId, Revision, WorkId};
use crate::owner_control::{checked_next, next_revision, RecordWrite};
use crate::active_context::PlanningRevisionState;
use crate::packets::LoweringFacts;
use crate::revalidation::ReconciliationSafeState;

verus! {

/// The state of a work item.
#[derive(Clone, Copy, Debug, PartialEq, Eq, Structural)]
pub enum WorkState {
    Planned,
    Blocked,
    /// Any other state.
    Other,
}

/// A work record; `meaning` stands for its parent, title, kind, type,
/// order, dependencies, acceptance and required stage, by their digest.
#[derive(Clone, Copy, Debug, PartialEq, Eq, Structural)]
pub struct WorkRecord {
    pub work_id: WorkId,
    pub revision: Revision,
    pub state: WorkState,
    pub active_job: Option<JobId>,
    pub validation_generation: u64,
    pub meaning: DigestValue,
}

/// The lowering a work currently comes from: the last current lowering, in
/// scan order, that lowers it.
pub open spec fn work_origin(ls: Seq<LoweringFacts>, w: WorkId) -> Option<LoweringId>
    decreases ls.len(),
{
    if ls.len() == 0 {
        None
    } else if ls.last().current && ls.last().work_ids@.contains(w) {
        Some(ls.last().lowering_id)
    } else {
        work_origin(ls.drop_last(), w)
    }
}

fn lowers(l: &LoweringFacts, w: WorkId) -> (r: bool)
    ensures
        r == l.work_ids@.contains(w),
{
    let mut i: usize = 0;
    while i < l.work_ids.len()
        invariant
            i <= l.work_ids@.len(),
            forall|k: int| 0 <= k < i ==> l.work_ids@[k] != w,
        decreases l.work_ids@.len() - i,
    {
        if l.work_ids[i].0 == w.0 {
            assert(l.work_ids@[i as int] == w);
            return true;
        }
        i += 1;
    }
    false
}

/// The lowering a work currently comes from.
pub fn current_origin(lowerings: &[LoweringFacts], w: WorkId) -> (r: Option<LoweringId>)
    ensures
        r == work_origin(lowerings@, w),
{
    let mut k: usize = lowerings.len();
    assert(lowerings@.take(k as int) =~= lowerings@);
    while k > 0
        invariant
            k <= lowerings@.len(),
            work_origin(lowerings@.take(k as int), w) == work_origin(lowerings@, w),
        decreases k,
    {
        assert(lowerings@.take(k as int).drop_last() =~= lowerings@.take(k - 1));
        assert(lowerings@.take(k as int).last() == lowerings@[k - 1]);
        if lowerings[k - 1].current && lowers(&lowerings[k - 1], w) {
            return Some(lowerings[k - 1].lowering_id);
        }
        k -= 1;
    }
    None
}

/// What materializing does with one submitted work.
#[derive(Clone, Copy, Debug, PartialEq, Eq, Structural)]
pub enum WorkDecision {
    /// New work, inserted at revision one.
    Insert,
    /// The same planned, idle work of this lowering lineage.
    Unchanged,
    /// Existing work of the predecessor, replaced by a review-caused
    /// relowering.
    ReviewRelowering,
}

/// How a submitted work is materialized: new work must start at revision
/// one; existing work is left alone when it is unchanged, planned, idle and
/// of the predecessor (or of no lowering); otherwise only the predecessor's
/// work with a review compare-and-swap may be relowered.
pub open spec fn work_decision(current: Option<WorkRecord>, submitted: WorkRecord, origin: Option<LoweringId>, predecessor: Option<LoweringId>, has_cas: bool) -> Result<WorkDecision, ErrorCode> {
    match current {
        None => if submitted.revision.0 == 1 { Ok(WorkDecision::Insert) } else { Err(ErrorCode::Conflict) },
        Some(c) => if c == submitted && c.state == WorkState::Planned && c.active_job is None
            && (origin is None || origin == predecessor) {
            Ok(WorkDecision::Unchanged)
        } else if origin is None || origin != predecessor || !has_cas {
            Err(ErrorCode::Conflict)
        } else {
            Ok(WorkDecision::ReviewRelowering)
        },
    }
}

/// Existing work is kept unchanged only when it is exactly the submitted
/// work, planned, with no active job, and of no lowering or of the
/// predecessor; in particular work with an active job is never kept, and
/// without a review compare-and-swap it is a conflict.
pub proof fn law_running_work_is_never_kept(
    current: WorkRecord,
    submitted: WorkRecord,
    origin: Option<LoweringId>,
    predecessor: Option<LoweringId>,
    has_cas: bool,
)
    ensures
        work_decision(Some(current), submitted, origin, predecessor, has_cas) == Ok::<WorkDecision, ErrorCode>(WorkDecision::Unchanged)
            ==> current == submitted && current.state == WorkState::Planned && current.active_job is None
            && (origin is None || origin == predecessor),
        current.active_job is Some && !has_cas ==> work_decision(Some(current), submitted, origin, predecessor, has_cas)
            == Err::<WorkDecision, ErrorCode>(ErrorCode::Conflict),
        current.active_job is Some ==> work_decision(Some(current), submitted, origin, predecessor, has_cas)
            != Ok::<WorkDecision, ErrorCode>(WorkDecision::Unchanged),
{
}

/// New work is inserted exactly when it starts at revision one; existing
/// work is relowered only when it is not kept, belongs to the predecessor
/// lowering and a review compare-and-swap covers it.
pub proof fn law_insertions_and_relowerings(
    current: Option<WorkRecord>,
    submitted: WorkRecord,
    origin: Option<LoweringId>,
    predecessor: Option<LoweringId>,
    has_cas: bool,
)
    ensures
        current is None ==> (work_decision(current, submitted, origin, predecessor, has_cas) == Ok::<WorkDecision, ErrorCode>(
            WorkDecision::Insert,
        ) <==> submitted.revision.0 == 1),
        current is None && submitted.revision.0 != 1 ==> work_decision(current, submitted, origin, predecessor, has_cas)
            == Err::<WorkDecision, ErrorCode>(ErrorCode::Conflict),
        current is Some ==> work_decision(current, submitted, origin, predecessor, has_cas) != Ok::<WorkDecision, ErrorCode>(WorkDecision::Insert),
        work_decision(current, submitted, origin, predecessor, has_cas) == Ok::<WorkDecision, ErrorCode>(WorkDecision::ReviewRelowering)
            ==> current is Some && origin is Some && origin == predecessor && has_cas,
{
}

/// Decides how a submitted work is materialized.
pub fn classify_lowered_work(
    current: Option<WorkRecord>,
    submitted: WorkRecord,
    origin: Option<LoweringId>,
    predecessor: Option<LoweringId>,
    has_cas: bool,
) -> (r: Result<WorkDecision, ZapError>)
    ensures
        match work_decision(current, submitted, origin, predecessor, has_cas) {
            Ok(d) => r == Ok::<WorkDecision, ZapError>(d),
            Err(c) => r == Err::<WorkDecision, ZapError>(ZapError { code: c, detail: ErrorDetail::Empty }),
        },
{
    match current {
        None => {
            if submitted.revision.0 == 1 {
                Ok(WorkDecision::Insert)
            } else {
                Err(ZapError::new(ErrorCode::Conflict))
            }
        },
        Some(c) => {
            let same_origin = match (origin, predecessor) {
                (Some(a), Some(b)) => a.0 == b.0,
                (None, None) => true,
                _ => false,
            };
            if c == submitted && matches!(c.state, WorkState::Planned) && c.active_job.is_none() && (origin.is_none() || same_origin) {
                return Ok(WorkDecision::Unchanged);
            }
            if origin.is_none() || !same_origin || !has_cas {
                return Err(ZapError::new(ErrorCode::Conflict));
            }
            Ok(WorkDecision::ReviewRelowering)
        },
    }
}


/// What a review decided for a work item.
#[derive(Clone, Copy, Debug, PartialEq, Eq, Structural)]
pub enum ReviewWorkOperation {
    Revalidate,
    /// Any other disposition.
    Other,
}

/// A review's disposition of one work item.
#[derive(Clone, Copy, Debug, PartialEq, Eq, Structural)]
pub struct ReviewWorkChange {
    pub work_id: WorkId,
    pub operation: ReviewWorkOperation,
}

/// A job the review's reconciliation plan covers.
#[derive(Clone, Copy, Debug, PartialEq, Eq, Structural)]
pub struct JobReconciliation {
    pub job_id: JobId,
    pub attempt_id: AttemptId,
    pub work_id: WorkId,
}

/// The applied review a relowering is caused by.
pub struct ReviewFacts {
    pub work_changes: Vec<ReviewWorkChange>,
    pub job_reconciliation: Vec<JobReconciliation>,
}

/// The compare-and-swap a review recorded for one work item.
pub struct ReviewWorkCas {
    pub work_id: WorkId,
    pub pre_review_revision: Revision,
    pub post_review_revision: Revision,
    pub post_review_state: WorkState,
    pub validation_generation: u64,
    pub active_job: Option<JobId>,
    pub contract_id: Option<ContractId>,
    pub contract_version: Option<Revision>,
    pub contract_digest: Option<DigestValue>,
    pub candidate_basis: DigestValue,
    pub current_candidate_ids: Vec<CandidateId>,
    pub affected_jobs_digest: DigestValue,
}

/// A candidate result's provenance: the packet that produced it, the work
/// among its subjects, and what it was produced against.
pub struct CandidateFacts {
    pub candidate_id: CandidateId,
    pub producer_packet: PacketId,
    pub subject_work_ids: Vec<WorkId>,
    pub contract_id: ContractId,
    pub contract_digest: DigestValue,
    pub relevant_basis: DigestValue,
}

/// A worker packet, as candidate provenance reads it.
#[derive(Clone, Copy, Debug, PartialEq, Eq, Structural)]
pub struct PacketContract {
    pub packet_id: PacketId,
    pub work_id: WorkId,
    pub contract_id: ContractId,
    pub contract_digest: DigestValue,
    pub validation_generation: u64,
}

/// What a job's effect is known to be.
#[derive(Clone, Copy, Debug, PartialEq, Eq, Structural)]
pub enum EffectState {
    Started,
    Unknown,
    /// Any other effect state.
    Other,
}

/// A job's execution, as the relowering reads it.
#[derive(Clone, Copy, Debug, PartialEq, Eq, Structural)]
pub struct JobObservation {
    pub job_id: JobId,
    pub attempt_id: AttemptId,
    pub work_id: WorkId,
    pub terminal: bool,
    pub effect: EffectState,
    pub safe_state: ReconciliationSafeState,
}

pub open spec fn change_of(cs: Seq<ReviewWorkChange>, w: WorkId) -> Option<ReviewWorkChange>
    decreases cs.len(),
{
    if cs.len() == 0 {
        None
    } else if cs[0].work_id == w {
        Some(cs[0])
    } else {
        change_of(cs.drop_first(), w)
    }
}

/// The packet with the identity: the last one in scan order.
pub open spec fn packet_of(ps: Seq<PacketContract>, id: PacketId) -> Option<PacketContract>
    decreases ps.len(),
{
    if ps.len() == 0 {
        None
    } else if ps.last().packet_id == id {
        Some(ps.last())
    } else {
        packet_of(ps.drop_last(), id)
    }
}

/// Why the review compare-and-swap does not fit the current and submitted
/// work, checked in order: the review must revalidate the work, the CAS
/// must follow the pre-review revision into a blocked state, the current
/// work must be exactly that post-review state, and the submitted work must
/// be the next revision, planned, idle, one generation on and of changed
/// meaning. A revision with no successor is an invalid value.
pub open spec fn cas_error(ch: ReviewWorkChange, cas: ReviewWorkCas, current: WorkRecord, submitted: WorkRecord) -> Option<ErrorCode> {
    if ch.operation != ReviewWorkOperation::Revalidate {
        Some(ErrorCode::Conflict)
    } else if next_revision(cas.pre_review_revision) is None {
        Some(ErrorCode::InvalidValue)
    } else if Some(cas.post_review_revision) != next_revision(cas.pre_review_revision) || cas.post_review_state != WorkState::Blocked
        || current.work_id != cas.work_id || current.revision != cas.post_review_revision || current.state != cas.post_review_state
        || current.validation_generation != cas.validation_generation || current.active_job != cas.active_job {
        Some(ErrorCode::Conflict)
    } else if next_revision(cas.post_review_revision) is None {
        Some(ErrorCode::InvalidValue)
    } else if Some(submitted.revision) != next_revision(cas.post_review_revision) || submitted.state != WorkState::Planned
        || submitted.validation_generation != cas.validation_generation + 1 || submitted.active_job is Some
        || current.meaning == submitted.meaning {
        Some(ErrorCode::Conflict)
    } else {
        None
    }
}

/// The candidate was produced for this work, under the CAS's contract, by a
/// packet of this work at the CAS's generation, against the CAS's basis.
pub open spec fn candidate_current(row: CandidateFacts, cas: ReviewWorkCas, w: WorkId, ps: Seq<PacketContract>) -> bool {
    &&& row.subject_work_ids@.contains(w)
    &&& cas.contract_id == Some(row.contract_id)
    &&& cas.contract_digest == Some(row.contract_digest)
    &&& packet_of(ps, row.producer_packet) matches Some(p)
    &&& p.work_id == w
    &&& cas.contract_id == Some(p.contract_id)
    &&& cas.contract_digest == Some(p.contract_digest)
    &&& p.validation_generation == cas.validation_generation
    &&& row.relevant_basis == cas.candidate_basis
}

/// The current candidates of the work, in scan order.
pub open spec fn current_candidates(rows: Seq<CandidateFacts>, cas: ReviewWorkCas, w: WorkId, ps: Seq<PacketContract>) -> Seq<CandidateId>
    decreases rows.len(),
{
    if rows.len() == 0 {
        Seq::empty()
    } else {
        let prev = current_candidates(rows.drop_last(), cas, w, ps);
        if candidate_current(rows.last(), cas, w, ps) { prev.push(rows.last().candidate_id) } else { prev }
    }
}

/// A job of the work that is still running or whose effect started or is
/// unknown.
pub open spec fn job_affected(j: JobObservation, w: WorkId) -> bool {
    j.work_id == w && (!j.terminal || j.effect == EffectState::Started || j.effect == EffectState::Unknown)
}

impl Keyed for JobObservation {
    open spec fn key_of(&self) -> (u64, u64) {
        (self.job_id.0, 0)
    }

    fn key(&self) -> (r: (u64, u64)) {
        (self.job_id.0, 0)
    }
}

/// The work's affected jobs, in the order given.
pub open spec fn affected_jobs_of(jobs: Seq<JobObservation>, w: WorkId) -> Seq<JobObservation>
    decreases jobs.len(),
{
    if jobs.len() == 0 {
        Seq::empty()
    } else {
        let prev = affected_jobs_of(jobs.drop_last(), w);
        if job_affected(jobs.last(), w) { prev.push(jobs.last()) } else { prev }
    }
}

/// The work's affected jobs in job order: the list whose digest a
/// review-caused relowering compares with the one its CAS recorded.
pub fn affected_jobs_in_order(jobs: &Vec<JobObservation>, work_id: WorkId) -> (r: Vec<JobObservation>)
    ensures
        r@.to_multiset() == affected_jobs_of(jobs@, work_id).to_multiset(),
        forall|a: int, b: int| 0 <= a < b < r@.len() ==> (#[trigger] r@[a]).job_id.0 <= (#[trigger] r@[b]).job_id.0,
{
    let mut out: Vec<JobObservation> = Vec::new();
    let mut i: usize = 0;
    proof {
        assert(jobs@.take(0) =~= Seq::<JobObservation>::empty());
        assert(out@ =~= Seq::<JobObservation>::empty());
    }
    while i < jobs.len()
        invariant
            i <= jobs@.len(),
            keys_sorted(out@),
            out@.to_multiset() == affected_jobs_of(jobs@.take(i as int), work_id).to_multiset(),
        decreases jobs@.len() - i,
    {
        let j = jobs[i];
        let ghost prev = affected_jobs_of(jobs@.take(i as int), work_id);
        proof {
            assert(jobs@.take(i as int + 1).drop_last() =~= jobs@.take(i as int));
            assert(jobs@.take(i as int + 1).last() == j);
        }
        if j.work_id.0 == work_id.0 && (!j.terminal || j.effect == EffectState::Started || j.effect == EffectState::Unknown) {
            insert_sorted(&mut out, j);
            proof {
                vstd::seq_lib::to_multiset_build(prev, j);
            }
        }
        i += 1;
    }
    proof {
        assert(jobs@.take(jobs@.len() as int) =~= jobs@);
        assert forall|a: int, b: int| 0 <= a < b < out@.len() implies (#[trigger] out@[a]).job_id.0 <= (#[trigger] out@[b]).job_id.0 by {
            assert(key_le(out@[a].key_of(), out@[b].key_of()));
        }
    }
    out
}

/// The affected job is terminal, of known effect, in a safe state and
/// covered by the review's reconciliation plan.
pub open spec fn job_reconciled(j: JobObservation, plans: Seq<JobReconciliation>) -> bool {
    &&& j.terminal
    &&& j.effect != EffectState::Unknown
    &&& (j.safe_state == ReconciliationSafeState::NotStarted || j.safe_state == ReconciliationSafeState::Safe
        || j.safe_state == ReconciliationSafeState::Completed)
    &&& exists|k: int| 0 <= k < plans.len() && (#[trigger] plans[k]).job_id == j.job_id && plans[k].attempt_id == j.attempt_id
        && plans[k].work_id == j.work_id
}

/// Why a review-caused relowering of existing work cannot stand: the review
/// or its disposition of the work is missing, the generation cannot
/// advance, the CAS does not fit, the current candidates differ from the
/// CAS's, or the affected jobs are not the exact reconciled terminal set.
/// `jobs_digest` is the digest of the work's affected jobs in job order.
pub open spec fn relowering_error(
    review: Option<ReviewFacts>,
    cas: ReviewWorkCas,
    current: WorkRecord,
    submitted: WorkRecord,
    candidates: Seq<CandidateFacts>,
    packets: Seq<PacketContract>,
    jobs: Seq<JobObservation>,
    jobs_digest: DigestValue,
) -> Option<ErrorCode> {
    match review {
        None => Some(ErrorCode::MissingReference),
        Some(r) => match change_of(r.work_changes@, current.work_id) {
            None => Some(ErrorCode::MissingReference),
            Some(ch) => if cas.validation_generation == u64::MAX {
                Some(ErrorCode::Conflict)
            } else if cas_error(ch, cas, current, submitted) is Some {
                cas_error(ch, cas, current, submitted)
            } else if current_candidates(candidates, cas, current.work_id, packets) != cas.current_candidate_ids@ {
                Some(ErrorCode::Conflict)
            } else if jobs_digest != cas.affected_jobs_digest || exists|k: int| 0 <= k < jobs.len()
                && job_affected(#[trigger] jobs[k], current.work_id) && !job_reconciled(jobs[k], r.job_reconciliation@) {
                Some(ErrorCode::Conflict)
            } else {
                None
            },
        },
    }
}

fn find_change(cs: &Vec<ReviewWorkChange>, w: WorkId) -> (r: Option<ReviewWorkChange>)
    ensures
        r == change_of(cs@, w),
{
    let ghost s = cs@;
    let mut i: usize = 0;
    assert(s.skip(0) =~= s);
    while i < cs.len()
        invariant
            i <= s.len(),
            s == cs@,
            change_of(s.skip(i as int), w) == change_of(s, w),
        decreases s.len() - i,
    {
        assert(s.skip(i as int).drop_first() =~= s.skip(i as int + 1));
        if cs[i].work_id.0 == w.0 {
            return Some(cs[i]);
        }
        i += 1;
    }
    None
}

fn find_packet_contract(ps: &[PacketContract], id: PacketId) -> (r: Option<PacketContract>)
    ensures
        r == packet_of(ps@, id),
{
    let mut k: usize = ps.len();
    assert(ps@.take(k as int) =~= ps@);
    while k > 0
        invariant
            k <= ps@.len(),
            packet_of(ps@.take(k as int), id) == packet_of(ps@, id),
        decreases k,
    {
        assert(ps@.take(k as int).drop_last() =~= ps@.take(k - 1));
        assert(ps@.take(k as int).last() == ps@[k - 1]);
        if ps[k - 1].packet_id.0 == id.0 {
            return Some(ps[k - 1]);
        }
        k -= 1;
    }
    None
}

fn holds_work_id(v: &Vec<WorkId>, w: WorkId) -> (r: bool)
    ensures
        r == v@.contains(w),
{
    let mut i: usize = 0;
    while i < v.len()
        invariant
            i <= v@.len(),
            forall|k: int| 0 <= k < i ==> v@[k] != w,
        decreases v@.len() - i,
    {
        if v[i].0 == w.0 {
            assert(v@[i as int] == w);
            return true;
        }
        i += 1;
    }
    false
}

fn candidate_current_exec(row: &CandidateFacts, cas: &ReviewWorkCas, w: WorkId, ps: &[PacketContract]) -> (r: bool)
    ensures
        r == candidate_current(*row, *cas, w, ps@),
{
    let contract_ok = match cas.contract_id {
        Some(c) => c.0 == row.contract_id.0,
        None => false,
    };
    let digest_ok = match cas.contract_digest {
        Some(d) => d.0 == row.contract_digest.0,
        None => false,
    };
    if !holds_work_id(&row.subject_work_ids, w) || !contract_ok || !digest_ok {
        return false;
    }
    match find_packet_contract(ps, row.producer_packet) {
        Some(p) => {
            let packet_contract = match cas.contract_id {
                Some(c) => c.0 == p.contract_id.0,
                None => false,
            };
            let packet_digest = match cas.contract_digest {
                Some(d) => d.0 == p.contract_digest.0,
                None => false,
            };
            p.work_id.0 == w.0 && packet_contract && packet_digest && p.validation_generation == cas.validation_generation
                && row.relevant_basis.0 == cas.candidate_basis.0
        },
        None => false,
    }
}

fn same_candidates(a: &Vec<CandidateId>, b: &Vec<CandidateId>) -> (r: bool)
    ensures
        r == (a@ == b@),
{
    if a.len() != b.len() {
        return false;
    }
    let mut i: usize = 0;
    while i < a.len()
        invariant
            i <= a@.len(),
            a@.len() == b@.len(),
            forall|k: int| 0 <= k < i ==> a@[k] == b@[k],
        decreases a@.len() - i,
    {
        if a[i].0 != b[i].0 {
            return false;
        }
        i += 1;
    }
    assert(a@ =~= b@);
    true
}

#[verifier::loop_isolation(false)]
fn job_reconciled_exec(j: &JobObservation, plans: &Vec<JobReconciliation>) -> (r: bool)
    ensures
        r == job_reconciled(*j, plans@),
{
    if !j.terminal || matches!(j.effect, EffectState::Unknown)
        || !matches!(j.safe_state, ReconciliationSafeState::NotStarted | ReconciliationSafeState::Safe | ReconciliationSafeState::Completed) {
        return false;
    }
    let mut k: usize = 0;
    while k < plans.len()
        invariant
            k <= plans@.len(),
            forall|m: int| 0 <= m < k ==> !((#[trigger] plans@[m]).job_id == j.job_id && plans@[m].attempt_id == j.attempt_id
                && plans@[m].work_id == j.work_id),
        decreases plans@.len() - k,
    {
        let p = plans[k];
        if p.job_id.0 == j.job_id.0 && p.attempt_id.0 == j.attempt_id.0 && p.work_id.0 == j.work_id.0 {
            assert(plans@[k as int].job_id == j.job_id && plans@[k as int].attempt_id == j.attempt_id && plans@[k as int].work_id == j.work_id);
            return true;
        }
        k += 1;
    }
    false
}

/// Validates a review-caused relowering of existing work.
#[verifier::loop_isolation(false)]
pub fn validate_review_relowered_work(
    review: Option<&ReviewFacts>,
    cas: &ReviewWorkCas,
    current: &WorkRecord,
    submitted: &WorkRecord,
    candidates: &[CandidateFacts],
    packets: &[PacketContract],
    jobs: &[JobObservation],
    jobs_digest: DigestValue,
) -> (r: Result<(), ZapError>)
    ensures
        match relowering_error(match review { Some(x) => Some(*x), None => None }, *cas, *current, *submitted, candidates@, packets@, jobs@, jobs_digest) {
            Some(c) => r == Err::<(), ZapError>(ZapError { code: c, detail: ErrorDetail::Empty }),
            None => r is Ok,
        },
{
    let rv = match review {
        Some(x) => x,
        None => return Err(ZapError::new(ErrorCode::MissingReference)),
    };
    let ch = match find_change(&rv.work_changes, current.work_id) {
        Some(c) => c,
        None => return Err(ZapError::new(ErrorCode::MissingReference)),
    };
    if cas.validation_generation == u64::MAX {
        return Err(ZapError::new(ErrorCode::Conflict));
    }
    let expected_generation = cas.validation_generation + 1;
    if !matches!(ch.operation, ReviewWorkOperation::Revalidate) {
        return Err(ZapError::new(ErrorCode::Conflict));
    }
    if cas.pre_review_revision.0 == u64::MAX {
        return Err(ZapError::new(ErrorCode::InvalidValue));
    }
    let active_same = match (current.active_job, cas.active_job) {
        (Some(a), Some(b)) => a.0 == b.0,
        (None, None) => true,
        _ => false,
    };
    if cas.post_review_revision.0 != cas.pre_review_revision.0 + 1 || !matches!(cas.post_review_state, WorkState::Blocked)
        || current.work_id.0 != cas.work_id.0 || current.revision.0 != cas.post_review_revision.0 || current.state != cas.post_review_state
        || current.validation_generation != cas.validation_generation || !active_same {
        return Err(ZapError::new(ErrorCode::Conflict));
    }
    if cas.post_review_revision.0 == u64::MAX {
        return Err(ZapError::new(ErrorCode::InvalidValue));
    }
    if submitted.revision.0 != cas.post_review_revision.0 + 1 || !matches!(submitted.state, WorkState::Planned)
        || submitted.validation_generation != expected_generation || submitted.active_job.is_some()
        || current.meaning.0 == submitted.meaning.0 {
        return Err(ZapError::new(ErrorCode::Conflict));
    }
    let mut found: Vec<CandidateId> = Vec::new();
    let mut i: usize = 0;
    assert(candidates@.take(0) =~= Seq::<CandidateFacts>::empty());
    while i < candidates.len()
        invariant
            i <= candidates@.len(),
            found@ == current_candidates(candidates@.take(i as int), *cas, current.work_id, packets@),
        decreases candidates@.len() - i,
    {
        assert(candidates@.take(i as int + 1).drop_last() =~= candidates@.take(i as int));
        if candidate_current_exec(&candidates[i], cas, current.work_id, packets) {
            found.push(candidates[i].candidate_id);
        }
        i += 1;
    }
    assert(candidates@.take(candidates@.len() as int) =~= candidates@);
    if !same_candidates(&found, &cas.current_candidate_ids) {
        return Err(ZapError::new(ErrorCode::Conflict));
    }
    if jobs_digest.0 != cas.affected_jobs_digest.0 {
        return Err(ZapError::new(ErrorCode::Conflict));
    }
    let mut k: usize = 0;
    while k < jobs.len()
        invariant
            k <= jobs@.len(),
            forall|m: int| 0 <= m < k ==> !(job_affected(#[trigger] jobs@[m], current.work_id) && !job_reconciled(jobs@[m], rv.job_reconciliation@)),
        decreases jobs@.len() - k,
    {
        let j = &jobs[k];
        let affected = j.work_id.0 == current.work_id.0 && (!j.terminal || matches!(j.effect, EffectState::Started | EffectState::Unknown));
        if affected && !job_reconciled_exec(j, &rv.job_reconciliation) {
            assert(job_affected(jobs@[k as int], current.work_id));
            return Err(ZapError::new(ErrorCode::Conflict));
        }
        k += 1;
    }
    Ok(())
}


/// A task contract; `content_digest` is the digest recomputed from its
/// content.
#[derive(Clone, Copy, Debug, PartialEq, Eq, Structural)]
pub struct ContractRecord {
    pub contract_id: ContractId,
    pub work_id: WorkId,
    pub version: Revision,
    pub active: bool,
    pub contract_digest: DigestValue,
    pub content_digest: DigestValue,
}

pub open spec fn contract_of(cs: Seq<ContractRecord>, id: ContractId) -> Option<ContractRecord>
    decreases cs.len(),
{
    if cs.len() == 0 {
        None
    } else if cs[0].contract_id == id {
        Some(cs[0])
    } else {
        contract_of(cs.drop_first(), id)
    }
}

fn find_contract(cs: &[ContractRecord], id: ContractId) -> (r: Option<ContractRecord>)
    ensures
        r == contract_of(cs@, id),
{
    let ghost s = cs@;
    let mut i: usize = 0;
    assert(s.skip(0) =~= s);
    while i < cs.len()
        invariant
            i <= s.len(),
            s == cs@,
            contract_of(s.skip(i as int), id) == contract_of(s, id),
        decreases s.len() - i,
    {
        assert(s.skip(i as int).drop_first() =~= s.skip(i as int + 1));
        if cs[i].contract_id.0 == id.0 {
            return Some(cs[i]);
        }
        i += 1;
    }
    None
}

/// The writes a review-caused contract change makes: the same contract
/// advanced one version with changed meaning, or a new contract at version
/// one replacing the current one, which is deactivated.
pub open spec fn review_contract_writes(submitted: ContractRecord, cas: ReviewWorkCas, all: Seq<ContractRecord>) -> Result<Seq<RecordWrite<ContractRecord>>, ErrorCode> {
    match cas.contract_id {
        None => Err(ErrorCode::MissingReference),
        Some(id) => match contract_of(all, id) {
            None => Err(ErrorCode::MissingReference),
            Some(current) => if !current.active || current.work_id != cas.work_id || Some(current.version) != cas.contract_version
                || Some(current.contract_digest) != cas.contract_digest || submitted.work_id != cas.work_id || !submitted.active
                || submitted.contract_digest != submitted.content_digest {
                Err(ErrorCode::Conflict)
            } else if next_revision(current.version) is None {
                Err(ErrorCode::InvalidValue)
            } else if submitted.contract_id == current.contract_id {
                if Some(submitted.version) != next_revision(current.version) || submitted.contract_digest == current.contract_digest {
                    Err(ErrorCode::Conflict)
                } else {
                    Ok(seq![RecordWrite::Replace { expected: current.version, record: submitted }])
                }
            } else if submitted.version.0 != 1 || contract_of(all, submitted.contract_id) is Some {
                Err(ErrorCode::Conflict)
            } else {
                Ok(seq![
                    RecordWrite::Replace {
                        expected: current.version,
                        record: ContractRecord { active: false, version: next_revision(current.version)->0, ..current },
                    },
                    RecordWrite::Insert(submitted),
                ])
            },
        },
    }
}

/// Applies a review-caused contract change against the exact current active
/// contract that the review's compare-and-swap names.
pub fn apply_review_contract_change(submitted: &ContractRecord, cas: &ReviewWorkCas, all: &[ContractRecord]) -> (r: Result<Vec<RecordWrite<ContractRecord>>, ZapError>)
    ensures
        match review_contract_writes(*submitted, *cas, all@) {
            Ok(w) => r matches Ok(v) && v@ == w,
            Err(c) => r matches Err(e) && e.code == c,
        },
{
    let id = match cas.contract_id {
        Some(id) => id,
        None => return Err(ZapError::new(ErrorCode::MissingReference)),
    };
    let current = match find_contract(all, id) {
        Some(c) => c,
        None => return Err(ZapError::new(ErrorCode::MissingReference)),
    };
    let version_ok = match cas.contract_version {
        Some(v) => v.0 == current.version.0,
        None => false,
    };
    let digest_ok = match cas.contract_digest {
        Some(d) => d.0 == current.contract_digest.0,
        None => false,
    };
    if !current.active || current.work_id.0 != cas.work_id.0 || !version_ok || !digest_ok || submitted.work_id.0 != cas.work_id.0
        || !submitted.active || submitted.contract_digest.0 != submitted.content_digest.0 {
        return Err(ZapError::new(ErrorCode::Conflict));
    }
    let next = checked_next(current.version)?;
    let mut out: Vec<RecordWrite<ContractRecord>> = Vec::new();
    if submitted.contract_id.0 == current.contract_id.0 {
        if submitted.version.0 != next.0 || submitted.contract_digest.0 == current.contract_digest.0 {
            return Err(ZapError::new(ErrorCode::Conflict));
        }
        out.push(RecordWrite::Replace { expected: current.version, record: *submitted });
        assert(out@ =~= seq![RecordWrite::Replace { expected: current.version, record: *submitted }]);
    } else {
        if submitted.version.0 != 1 || find_contract(all, submitted.contract_id).is_some() {
            return Err(ZapError::new(ErrorCode::Conflict));
        }
        let inactive = ContractRecord { active: false, version: next, ..current };
        out.push(RecordWrite::Replace { expected: current.version, record: inactive });
        out.push(RecordWrite::Insert(*submitted));
        assert(out@ =~= seq![RecordWrite::Replace { expected: current.version, record: inactive }, RecordWrite::Insert(*submitted)]);
    }
    Ok(out)
}

/// How many active contracts the work has.
pub open spec fn active_count(all: Seq<ContractRecord>, w: WorkId) -> nat
    decreases all.len(),
{
    if all.len() == 0 {
        0
    } else {
        active_count(all.drop_last(), w) + if all.last().work_id == w && all.last().active { 1nat } else { 0nat }
    }
}

/// The writes that materialize a submitted contract whose work was not
/// relowered: a new contract must be its work's only active one and start
/// at version one; an identical active contract must be its work's only one;
/// an inactive draft is activated by advancing it one version.
pub open spec fn plain_contract_writes(submitted: ContractRecord, all: Seq<ContractRecord>) -> Result<Seq<RecordWrite<ContractRecord>>, ErrorCode> {
    let active = active_count(all, submitted.work_id);
    match contract_of(all, submitted.contract_id) {
        None => if submitted.version.0 != 1 || active != 0 {
            Err(ErrorCode::Conflict)
        } else {
            Ok(seq![RecordWrite::Insert(submitted)])
        },
        Some(c) => if c == submitted && c.active {
            if active != 1 { Err(ErrorCode::Conflict) } else { Ok(Seq::empty()) }
        } else if !c.active {
            if next_revision(c.version) is None {
                Err(ErrorCode::InvalidValue)
            } else if Some(submitted.version) != next_revision(c.version) || submitted.work_id != c.work_id || active != 0 {
                Err(ErrorCode::Conflict)
            } else {
                Ok(seq![RecordWrite::Replace { expected: c.version, record: submitted }])
            }
        } else {
            Err(ErrorCode::Conflict)
        },
    }
}

fn count_active(all: &[ContractRecord], w: WorkId) -> (r: usize)
    ensures
        r == active_count(all@, w),
{
    let mut n: usize = 0;
    let mut i: usize = 0;
    assert(all@.take(0) =~= Seq::<ContractRecord>::empty());
    while i < all.len()
        invariant
            i <= all@.len(),
            n == active_count(all@.take(i as int), w),
            n <= i,
        decreases all@.len() - i,
    {
        assert(all@.take(i as int + 1).drop_last() =~= all@.take(i as int));
        if all[i].work_id.0 == w.0 && all[i].active {
            n += 1;
        }
        i += 1;
    }
    assert(all@.take(all@.len() as int) =~= all@);
    n
}

/// Materializes a submitted contract whose work was not relowered.
pub fn materialize_contract(submitted: &ContractRecord, all: &[ContractRecord]) -> (r: Result<Vec<RecordWrite<ContractRecord>>, ZapError>)
    ensures
        match plain_contract_writes(*submitted, all@) {
            Ok(w) => r matches Ok(v) && v@ == w,
            Err(c) => r matches Err(e) && e.code == c,
        },
{
    let active = count_active(all, submitted.work_id);
    let mut out: Vec<RecordWrite<ContractRecord>> = Vec::new();
    match find_contract(all, submitted.contract_id) {
        None => {
            if submitted.version.0 != 1 || active != 0 {
                return Err(ZapError::new(ErrorCode::Conflict));
            }
            out.push(RecordWrite::Insert(*submitted));
            assert(out@ =~= seq![RecordWrite::Insert(*submitted)]);
        },
        Some(c) => {
            if c == *submitted && c.active {
                if active != 1 {
                    return Err(ZapError::new(ErrorCode::Conflict));
                }
                assert(out@ =~= Seq::<RecordWrite<ContractRecord>>::empty());
            } else if !c.active {
                let next = checked_next(c.version)?;
                if submitted.version.0 != next.0 || submitted.work_id.0 != c.work_id.0 || active != 0 {
                    return Err(ZapError::new(ErrorCode::Conflict));
                }
                out.push(RecordWrite::Replace { expected: c.version, record: *submitted });
                assert(out@ =~= seq![RecordWrite::Replace { expected: c.version, record: *submitted }]);
            } else {
                return Err(ZapError::new(ErrorCode::Conflict));
            }
        },
    }
    Ok(out)
}


/// A review's compare-and-swap for a work item, with the digest the codec
/// computes of the work's current affected jobs in job order.
pub struct ReviewCasEntry {
    pub cas: ReviewWorkCas,
    pub jobs_digest: DigestValue,
}

pub open spec fn work_of(ws: Seq<WorkRecord>, id: WorkId) -> Option<WorkRecord>
    decreases ws.len(),
{
    if ws.len() == 0 {
        None
    } else if ws[0].work_id == id {
        Some(ws[0])
    } else {
        work_of(ws.drop_first(), id)
    }
}

/// The review's compare-and-swap for the work: the last entry for it.
pub open spec fn cas_of(es: Seq<ReviewCasEntry>, w: WorkId) -> Option<ReviewCasEntry>
    decreases es.len(),
{
    if es.len() == 0 {
        None
    } else if es.last().cas.work_id == w {
        Some(es.last())
    } else {
        cas_of(es.drop_last(), w)
    }
}

/// The review cause's compare-and-swap for the work, if there is a cause.
pub open spec fn cause_cas(sidecar: Option<Seq<ReviewCasEntry>>, w: WorkId) -> Option<ReviewCasEntry> {
    match sidecar {
        Some(es) => cas_of(es, w),
        None => None,
    }
}

/// What the store holds that materializing a graph reads.
pub struct GraphStore<'a> {
    pub predecessor: Option<LoweringId>,
    pub work: &'a [WorkRecord],
    pub lowerings: &'a [LoweringFacts],
    pub review: Option<&'a ReviewFacts>,
    pub sidecar: Option<&'a [ReviewCasEntry]>,
    pub candidates: &'a [CandidateFacts],
    pub packets: &'a [PacketContract],
    pub jobs: &'a [JobObservation],
    pub contracts: &'a [ContractRecord],
}

pub open spec fn sidecar_view(g: GraphStore) -> Option<Seq<ReviewCasEntry>> {
    match g.sidecar {
        Some(s) => Some(s@),
        None => None,
    }
}

pub open spec fn review_view(g: GraphStore) -> Option<ReviewFacts> {
    match g.review {
        Some(r) => Some(*r),
        None => None,
    }
}

/// The write one submitted work makes, if any.
pub open spec fn node_step(g: GraphStore, n: WorkRecord) -> Result<Option<RecordWrite<WorkRecord>>, ErrorCode> {
    let current = work_of(g.work@, n.work_id);
    let cas = cause_cas(sidecar_view(g), n.work_id);
    match work_decision(current, n, work_origin(g.lowerings@, n.work_id), g.predecessor, cas is Some) {
        Err(c) => Err(c),
        Ok(WorkDecision::Insert) => Ok(Some(RecordWrite::Insert(n))),
        Ok(WorkDecision::Unchanged) => Ok(None),
        Ok(WorkDecision::ReviewRelowering) => match relowering_error(review_view(g), cas->0.cas, current->0, n, g.candidates@, g.packets@,
            g.jobs@, cas->0.jobs_digest) {
            Some(c) => Err(c),
            None => Ok(Some(RecordWrite::Replace { expected: current->0.revision, record: n })),
        },
    }
}

/// The work writes of a graph's nodes, in order, and the relowered work.
pub open spec fn nodes_outcome(g: GraphStore, nodes: Seq<WorkRecord>) -> Result<(Seq<RecordWrite<WorkRecord>>, Seq<WorkId>), ErrorCode>
    decreases nodes.len(),
{
    if nodes.len() == 0 {
        Ok((Seq::empty(), Seq::empty()))
    } else {
        match nodes_outcome(g, nodes.drop_last()) {
            Err(c) => Err(c),
            Ok((ws, changed)) => match node_step(g, nodes.last()) {
                Err(c) => Err(c),
                Ok(None) => Ok((ws, changed)),
                Ok(Some(w)) => Ok((ws.push(w), if w is Replace { changed.push(nodes.last().work_id) } else { changed })),
            },
        }
    }
}

/// The writes one submitted contract makes.
pub open spec fn contract_step(g: GraphStore, changed: Seq<WorkId>, c: ContractRecord) -> Result<Seq<RecordWrite<ContractRecord>>, ErrorCode> {
    if changed.contains(c.work_id) {
        match cause_cas(sidecar_view(g), c.work_id) {
            None => Err(ErrorCode::MissingReference),
            Some(e) => review_contract_writes(c, e.cas, g.contracts@),
        }
    } else {
        plain_contract_writes(c, g.contracts@)
    }
}

pub open spec fn contracts_outcome(g: GraphStore, changed: Seq<WorkId>, cs: Seq<ContractRecord>) -> Result<Seq<RecordWrite<ContractRecord>>, ErrorCode>
    decreases cs.len(),
{
    if cs.len() == 0 {
        Ok(Seq::empty())
    } else {
        match contracts_outcome(g, changed, cs.drop_last()) {
            Err(c) => Err(c),
            Ok(ws) => match contract_step(g, changed, cs.last()) {
                Err(c) => Err(c),
                Ok(more) => Ok(ws + more),
            },
        }
    }
}

proof fn lemma_nodes_error_stays(g: GraphStore, nodes: Seq<WorkRecord>, i: int, j: int, c: ErrorCode)
    requires
        0 <= i <= j <= nodes.len(),
        nodes_outcome(g, nodes.take(i)) == Err::<(Seq<RecordWrite<WorkRecord>>, Seq<WorkId>), ErrorCode>(c),
    ensures
        nodes_outcome(g, nodes.take(j)) == Err::<(Seq<RecordWrite<WorkRecord>>, Seq<WorkId>), ErrorCode>(c),
    decreases j - i,
{
    if i < j {
        lemma_nodes_error_stays(g, nodes, i, j - 1, c);
        assert(nodes.take(j).drop_last() =~= nodes.take(j - 1));
    }
}

proof fn lemma_contracts_error_stays(g: GraphStore, changed: Seq<WorkId>, cs: Seq<ContractRecord>, i: int, j: int, c: ErrorCode)
    requires
        0 <= i <= j <= cs.len(),
        contracts_outcome(g, changed, cs.take(i)) == Err::<Seq<RecordWrite<ContractRecord>>, ErrorCode>(c),
    ensures
        contracts_outcome(g, changed, cs.take(j)) == Err::<Seq<RecordWrite<ContractRecord>>, ErrorCode>(c),
    decreases j - i,
{
    if i < j {
        lemma_contracts_error_stays(g, changed, cs, i, j - 1, c);
        assert(cs.take(j).drop_last() =~= cs.take(j - 1));
    }
}

fn find_work(ws: &[WorkRecord], id: WorkId) -> (r: Option<WorkRecord>)
    ensures
        r == work_of(ws@, id),
{
    let ghost s = ws@;
    let mut i: usize = 0;
    assert(s.skip(0) =~= s);
    while i < ws.len()
        invariant
            i <= s.len(),
            s == ws@,
            work_of(s.skip(i as int), id) == work_of(s, id),
        decreases s.len() - i,
    {
        assert(s.skip(i as int).drop_first() =~= s.skip(i as int + 1));
        if ws[i].work_id.0 == id.0 {
            return Some(ws[i]);
        }
        i += 1;
    }
    None
}

#[verifier::loop_isolation(false)]
fn find_cas(sidecar: Option<&[ReviewCasEntry]>, w: WorkId) -> (r: Option<usize>)
    ensures
        match sidecar {
            None => r is None,
            Some(es) => match cas_of(es@, w) {
                Some(e) => r matches Some(i) && i < es@.len() && es@[i as int] == e,
                None => r is None,
            },
        },
{
    let es = match sidecar {
        Some(es) => es,
        None => return None,
    };
    let mut k: usize = es.len();
    assert(es@.take(k as int) =~= es@);
    while k > 0
        invariant
            k <= es@.len(),
            cas_of(es@.take(k as int), w) == cas_of(es@, w),
        decreases k,
    {
        assert(es@.take(k as int).drop_last() =~= es@.take(k - 1));
        assert(es@.take(k as int).last() == es@[k - 1]);
        if es[k - 1].cas.work_id.0 == w.0 {
            return Some(k - 1);
        }
        k -= 1;
    }
    None
}

fn holds_changed(v: &Vec<WorkId>, w: WorkId) -> (r: bool)
    ensures
        r == v@.contains(w),
{
    let mut i: usize = 0;
    while i < v.len()
        invariant
            i <= v@.len(),
            forall|k: int| 0 <= k < i ==> v@[k] != w,
        decreases v@.len() - i,
    {
        if v[i].0 == w.0 {
            assert(v@[i as int] == w);
            return true;
        }
        i += 1;
    }
    false
}

/// The insertion of a graph's root work, if it has one.
pub open spec fn root_write(root: Option<WorkRecord>) -> Seq<RecordWrite<WorkRecord>> {
    match root {
        Some(w) => seq![RecordWrite::Insert(w)],
        None => Seq::empty(),
    }
}

/// Materializes a lowered graph: the insertion of its root work, if it has
/// one, then the writes its work nodes make, in order, then those of its
/// contracts, where a contract of relowered work follows the review's
/// compare-and-swap.
pub fn materialize_graph(g: &GraphStore, root: Option<WorkRecord>, nodes: &[WorkRecord], contracts: &[ContractRecord])
    -> (r: Result<(Vec<RecordWrite<WorkRecord>>, Vec<RecordWrite<ContractRecord>>), ZapError>)
    ensures
        match nodes_outcome(*g, nodes@) {
            Err(c) => r matches Err(e) && e.code == c,
            Ok((ws, changed)) => match contracts_outcome(*g, changed, contracts@) {
                Err(c) => r matches Err(e) && e.code == c,
                Ok(cws) => r matches Ok((a, b)) && a@ == root_write(root) + ws && b@ == cws,
            },
        },
{
    let mut work_writes: Vec<RecordWrite<WorkRecord>> = Vec::new();
    let mut changed: Vec<WorkId> = Vec::new();
    let mut i: usize = 0;
    assert(nodes@.take(0) =~= Seq::<WorkRecord>::empty());
    while i < nodes.len()
        invariant
            i <= nodes@.len(),
            nodes_outcome(*g, nodes@.take(i as int)) == Ok::<(Seq<RecordWrite<WorkRecord>>, Seq<WorkId>), ErrorCode>((work_writes@, changed@)),
        decreases nodes@.len() - i,
    {
        assert(nodes@.take(i as int + 1).drop_last() =~= nodes@.take(i as int));
        let n = nodes[i];
        let current = find_work(g.work, n.work_id);
        let origin = current_origin(g.lowerings, n.work_id);
        let ci = find_cas(g.sidecar, n.work_id);
        let decision = match classify_lowered_work(current, n, origin, g.predecessor, ci.is_some()) {
            Ok(d) => d,
            Err(e) => {
                proof {
                    assert(nodes_outcome(*g, nodes@.take(i as int + 1)) == Err::<(Seq<RecordWrite<WorkRecord>>, Seq<WorkId>), ErrorCode>(e.code));
                    lemma_nodes_error_stays(*g, nodes@, i as int + 1, nodes@.len() as int, e.code);
                    assert(nodes@.take(nodes@.len() as int) =~= nodes@);
                }
                return Err(e);
            },
        };
        match decision {
            WorkDecision::Insert => {
                work_writes.push(RecordWrite::Insert(n));
            },
            WorkDecision::Unchanged => {},
            WorkDecision::ReviewRelowering => {
                let c = current.unwrap();
                let entry = &g.sidecar.unwrap()[ci.unwrap()];
                match validate_review_relowered_work(g.review, &entry.cas, &c, &n, g.candidates, g.packets, g.jobs, entry.jobs_digest) {
                    Ok(()) => {},
                    Err(e) => {
                        proof {
                            assert(nodes_outcome(*g, nodes@.take(i as int + 1)) == Err::<(Seq<RecordWrite<WorkRecord>>, Seq<WorkId>), ErrorCode>(e.code));
                            lemma_nodes_error_stays(*g, nodes@, i as int + 1, nodes@.len() as int, e.code);
                            assert(nodes@.take(nodes@.len() as int) =~= nodes@);
                        }
                        return Err(e);
                    },
                }
                work_writes.push(RecordWrite::Replace { expected: c.revision, record: n });
                changed.push(n.work_id);
            },
        }
        i += 1;
    }
    assert(nodes@.take(nodes@.len() as int) =~= nodes@);
    let mut contract_writes: Vec<RecordWrite<ContractRecord>> = Vec::new();
    let mut j: usize = 0;
    assert(contracts@.take(0) =~= Seq::<ContractRecord>::empty());
    while j < contracts.len()
        invariant
            j <= contracts@.len(),
            nodes_outcome(*g, nodes@) == Ok::<(Seq<RecordWrite<WorkRecord>>, Seq<WorkId>), ErrorCode>((work_writes@, changed@)),
            contracts_outcome(*g, changed@, contracts@.take(j as int)) == Ok::<Seq<RecordWrite<ContractRecord>>, ErrorCode>(contract_writes@),
        decreases contracts@.len() - j,
    {
        assert(contracts@.take(j as int + 1).drop_last() =~= contracts@.take(j as int));
        let c = &contracts[j];
        let more = if holds_changed(&changed, c.work_id) {
            match find_cas(g.sidecar, c.work_id) {
                Some(k) => apply_review_contract_change(c, &g.sidecar.unwrap()[k].cas, g.contracts),
                None => Err(ZapError::new(ErrorCode::MissingReference)),
            }
        } else {
            materialize_contract(c, g.contracts)
        };
        let mut more = match more {
            Ok(m) => m,
            Err(e) => {
                proof {
                    assert(contracts_outcome(*g, changed@, contracts@.take(j as int + 1)) == Err::<Seq<RecordWrite<ContractRecord>>, ErrorCode>(e.code));
                    lemma_contracts_error_stays(*g, changed@, contracts@, j as int + 1, contracts@.len() as int, e.code);
                    assert(contracts@.take(contracts@.len() as int) =~= contracts@);
                }
                return Err(e);
            },
        };
        contract_writes.append(&mut more);
        j += 1;
    }
    assert(contracts@.take(contracts@.len() as int) =~= contracts@);
    let mut all_work: Vec<RecordWrite<WorkRecord>> = Vec::new();
    match root {
        Some(w) => all_work.push(RecordWrite::Insert(w)),
        None => {},
    }
    let ghost prefix = all_work@;
    assert(prefix == root_write(root));
    all_work.append(&mut work_writes);
    Ok((all_work, contract_writes))
}


/// An obligation and the work that owns it.
pub struct ObligationRecord {
    pub obligation_id: ObligationId,
    pub owners: Vec<WorkId>,
    pub revision: Revision,
}

/// The owners a lowering's coverage assigns to an obligation.
pub struct ObligationAssignment {
    pub obligation_id: ObligationId,
    pub assignments: Vec<WorkId>,
}

/// The obligation's record: the last one with its identity.
pub open spec fn obligation_of(os: Seq<ObligationRecord>, id: ObligationId) -> Option<ObligationRecord>
    decreases os.len(),
{
    if os.len() == 0 {
        None
    } else if os.last().obligation_id == id {
        Some(os.last())
    } else {
        obligation_of(os.drop_last(), id)
    }
}

/// A replacement of an obligation's owners: the new owners at the next
/// revision, in place of the revision it had.
#[derive(Debug)]
pub struct OwnerReplacement {
    pub obligation_id: ObligationId,
    pub expected: Revision,
    pub owners: Vec<WorkId>,
    pub revision: Revision,
}

/// The owner replacements the coverage makes, in order: an obligation whose
/// owners differ from its assignment gets them at its next revision; a
/// covered obligation must exist.
pub open spec fn owner_replacements(coverage: Seq<ObligationAssignment>, os: Seq<ObligationRecord>) -> Result<Seq<(ObligationId, Revision, Seq<WorkId>, Revision)>, ErrorCode>
    decreases coverage.len(),
{
    if coverage.len() == 0 {
        Ok(Seq::empty())
    } else {
        match owner_replacements(coverage.drop_last(), os) {
            Err(c) => Err(c),
            Ok(prev) => {
                let a = coverage.last();
                match obligation_of(os, a.obligation_id) {
                    None => Err(ErrorCode::MissingReference),
                    Some(cur) => if cur.owners@ == a.assignments@ {
                        Ok(prev)
                    } else {
                        match next_revision(cur.revision) {
                            None => Err(ErrorCode::InvalidValue),
                            Some(n) => Ok(prev.push((a.obligation_id, cur.revision, a.assignments@, n))),
                        }
                    },
                }
            },
        }
    }
}

pub open spec fn replacement_view(r: OwnerReplacement) -> (ObligationId, Revision, Seq<WorkId>, Revision) {
    (r.obligation_id, r.expected, r.owners@, r.revision)
}

fn find_obligation(os: &[ObligationRecord], id: ObligationId) -> (r: Option<usize>)
    ensures
        match obligation_of(os@, id) {
            Some(o) => r matches Some(i) && i < os@.len() && os@[i as int] == o,
            None => r is None,
        },
{
    let mut k: usize = os.len();
    assert(os@.take(k as int) =~= os@);
    while k > 0
        invariant
            k <= os@.len(),
            obligation_of(os@.take(k as int), id) == obligation_of(os@, id),
        decreases k,
    {
        assert(os@.take(k as int).drop_last() =~= os@.take(k - 1));
        assert(os@.take(k as int).last() == os@[k - 1]);
        if os[k - 1].obligation_id.0 == id.0 {
            return Some(k - 1);
        }
        k -= 1;
    }
    None
}

fn copy_works(v: &Vec<WorkId>) -> (r: Vec<WorkId>)
    ensures
        r@ == v@,
{
    let mut out: Vec<WorkId> = Vec::new();
    let mut i: usize = 0;
    while i < v.len()
        invariant
            i <= v@.len(),
            out@ == v@.take(i as int),
        decreases v@.len() - i,
    {
        out.push(v[i]);
        assert(v@.take(i as int + 1) =~= v@.take(i as int).push(v@[i as int]));
        i += 1;
    }
    assert(v@.take(v@.len() as int) =~= v@);
    out
}

/// Replaces the owners of covered obligations whose owners changed.
pub fn replace_obligation_owners(coverage: &[ObligationAssignment], obligations: &[ObligationRecord]) -> (r: Result<Vec<OwnerReplacement>, ZapError>)
    ensures
        match owner_replacements(coverage@, obligations@) {
            Ok(w) => r matches Ok(v) && v@.map_values(|x: OwnerReplacement| replacement_view(x)) == w,
            Err(c) => r matches Err(e) && e.code == c,
        },
{
    let mut out: Vec<OwnerReplacement> = Vec::new();
    let mut i: usize = 0;
    assert(coverage@.take(0) =~= Seq::<ObligationAssignment>::empty());
    assert(out@.map_values(|x: OwnerReplacement| replacement_view(x)) =~= Seq::<(ObligationId, Revision, Seq<WorkId>, Revision)>::empty());
    while i < coverage.len()
        invariant
            i <= coverage@.len(),
            owner_replacements(coverage@.take(i as int), obligations@) == Ok::<Seq<(ObligationId, Revision, Seq<WorkId>, Revision)>, ErrorCode>(
                out@.map_values(|x: OwnerReplacement| replacement_view(x))),
        decreases coverage@.len() - i,
    {
        assert(coverage@.take(i as int + 1).drop_last() =~= coverage@.take(i as int));
        let a = &coverage[i];
        let k = match find_obligation(obligations, a.obligation_id) {
            Some(k) => k,
            None => {
                proof {
                    lemma_owner_error_stays(coverage@, obligations@, i as int + 1, coverage@.len() as int, ErrorCode::MissingReference);
                    assert(coverage@.take(coverage@.len() as int) =~= coverage@);
                }
                return Err(ZapError::new(ErrorCode::MissingReference));
            },
        };
        let cur = &obligations[k];
        if !same_works(&cur.owners, &a.assignments) {
            let n = match checked_next(cur.revision) {
                Ok(n) => n,
                Err(e) => {
                    proof {
                        lemma_owner_error_stays(coverage@, obligations@, i as int + 1, coverage@.len() as int, ErrorCode::InvalidValue);
                        assert(coverage@.take(coverage@.len() as int) =~= coverage@);
                    }
                    return Err(e);
                },
            };
            let ghost before = out@;
            out.push(OwnerReplacement { obligation_id: a.obligation_id, expected: cur.revision, owners: copy_works(&a.assignments), revision: n });
            assert(out@.map_values(|x: OwnerReplacement| replacement_view(x)) =~= before.map_values(|x: OwnerReplacement| replacement_view(x)).push(
                (a.obligation_id, cur.revision, a.assignments@, n)));
        }
        i += 1;
    }
    assert(coverage@.take(coverage@.len() as int) =~= coverage@);
    Ok(out)
}

proof fn lemma_owner_error_stays(coverage: Seq<ObligationAssignment>, os: Seq<ObligationRecord>, i: int, j: int, c: ErrorCode)
    requires
        0 <= i <= j <= coverage.len(),
        owner_replacements(coverage.take(i), os) == Err::<Seq<(ObligationId, Revision, Seq<WorkId>, Revision)>, ErrorCode>(c),
    ensures
        owner_replacements(coverage.take(j), os) == Err::<Seq<(ObligationId, Revision, Seq<WorkId>, Revision)>, ErrorCode>(c),
    decreases j - i,
{
    if i < j {
        lemma_owner_error_stays(coverage, os, i, j - 1, c);
        assert(coverage.take(j).drop_last() =~= coverage.take(j - 1));
    }
}

fn same_works(a: &Vec<WorkId>, b: &Vec<WorkId>) -> (r: bool)
    ensures
        r == (a@ == b@),
{
    if a.len() != b.len() {
        return false;
    }
    let mut i: usize = 0;
    while i < a.len()
        invariant
            i <= a@.len(),
            a@.len() == b@.len(),
            forall|k: int| 0 <= k < i ==> a@[k] == b@[k],
        decreases a@.len() - i,
    {
        if a[i].0 != b[i].0 {
            return false;
        }
        i += 1;
    }
    assert(a@ =~= b@);
    true
}


/// A lowering's revision state.
#[derive(Clone, Copy, Debug, PartialEq, Eq, Structural)]
pub struct LoweringState {
    pub lowering_id: LoweringId,
    pub state: PlanningRevisionState,
    pub revision: Revision,
}

/// A packet's lowering and whether it is current.
#[derive(Clone, Copy, Debug, PartialEq, Eq, Structural)]
pub struct PacketState {
    pub packet_id: PacketId,
    pub lowering_id: LoweringId,
    pub current: bool,
    pub revision: Revision,
}

/// A record superseded at its next revision.
#[derive(Clone, Copy, Debug, PartialEq, Eq, Structural)]
pub struct Supersession {
    pub key: u64,
    pub expected: Revision,
    pub revision: Revision,
}

pub open spec fn lowering_state_of(ls: Seq<LoweringState>, id: LoweringId) -> Option<LoweringState>
    decreases ls.len(),
{
    if ls.len() == 0 {
        None
    } else if ls[0].lowering_id == id {
        Some(ls[0])
    } else {
        lowering_state_of(ls.drop_first(), id)
    }
}

/// The lowerings superseded, in the order of `ids`: each must exist, and a
/// current one is superseded at its next revision.
pub open spec fn lowering_supersessions(ids: Seq<LoweringId>, ls: Seq<LoweringState>) -> Result<Seq<Supersession>, ErrorCode>
    decreases ids.len(),
{
    if ids.len() == 0 {
        Ok(Seq::empty())
    } else {
        match lowering_supersessions(ids.drop_last(), ls) {
            Err(c) => Err(c),
            Ok(prev) => match lowering_state_of(ls, ids.last()) {
                None => Err(ErrorCode::MissingReference),
                Some(l) => if l.state != PlanningRevisionState::Current {
                    Ok(prev)
                } else {
                    match next_revision(l.revision) {
                        None => Err(ErrorCode::InvalidValue),
                        Some(n) => Ok(prev.push(Supersession { key: l.lowering_id.0, expected: l.revision, revision: n })),
                    }
                },
            },
        }
    }
}

/// The current packets of the superseded lowerings, superseded in scan
/// order at their next revisions.
pub open spec fn packet_supersessions(ids: Seq<LoweringId>, ps: Seq<PacketState>) -> Result<Seq<Supersession>, ErrorCode>
    decreases ps.len(),
{
    if ps.len() == 0 {
        Ok(Seq::empty())
    } else {
        match packet_supersessions(ids, ps.drop_last()) {
            Err(c) => Err(c),
            Ok(prev) => {
                let p = ps.last();
                if !(p.current && ids.contains(p.lowering_id)) {
                    Ok(prev)
                } else {
                    match next_revision(p.revision) {
                        None => Err(ErrorCode::InvalidValue),
                        Some(n) => Ok(prev.push(Supersession { key: p.packet_id.0, expected: p.revision, revision: n })),
                    }
                }
            },
        }
    }
}

fn find_lowering_state(ls: &[LoweringState], id: LoweringId) -> (r: Option<LoweringState>)
    ensures
        r == lowering_state_of(ls@, id),
{
    let ghost s = ls@;
    let mut i: usize = 0;
    assert(s.skip(0) =~= s);
    while i < ls.len()
        invariant
            i <= s.len(),
            s == ls@,
            lowering_state_of(s.skip(i as int), id) == lowering_state_of(s, id),
        decreases s.len() - i,
    {
        assert(s.skip(i as int).drop_first() =~= s.skip(i as int + 1));
        if ls[i].lowering_id.0 == id.0 {
            return Some(ls[i]);
        }
        i += 1;
    }
    None
}

fn holds_lowering(v: &[LoweringId], x: LoweringId) -> (r: bool)
    ensures
        r == v@.contains(x),
{
    let mut i: usize = 0;
    while i < v.len()
        invariant
            i <= v@.len(),
            forall|k: int| 0 <= k < i ==> v@[k] != x,
        decreases v@.len() - i,
    {
        if v[i].0 == x.0 {
            assert(v@[i as int] == x);
            return true;
        }
        i += 1;
    }
    false
}

proof fn lemma_lowering_error_stays(ids: Seq<LoweringId>, ls: Seq<LoweringState>, i: int, j: int, c: ErrorCode)
    requires
        0 <= i <= j <= ids.len(),
        lowering_supersessions(ids.take(i), ls) == Err::<Seq<Supersession>, ErrorCode>(c),
    ensures
        lowering_supersessions(ids.take(j), ls) == Err::<Seq<Supersession>, ErrorCode>(c),
    decreases j - i,
{
    if i < j {
        lemma_lowering_error_stays(ids, ls, i, j - 1, c);
        assert(ids.take(j).drop_last() =~= ids.take(j - 1));
    }
}

proof fn lemma_packet_error_stays(ids: Seq<LoweringId>, ps: Seq<PacketState>, i: int, j: int, c: ErrorCode)
    requires
        0 <= i <= j <= ps.len(),
        packet_supersessions(ids, ps.take(i)) == Err::<Seq<Supersession>, ErrorCode>(c),
    ensures
        packet_supersessions(ids, ps.take(j)) == Err::<Seq<Supersession>, ErrorCode>(c),
    decreases j - i,
{
    if i < j {
        lemma_packet_error_stays(ids, ps, i, j - 1, c);
        assert(ps.take(j).drop_last() =~= ps.take(j - 1));
    }
}

/// Supersedes the current lowerings among `ids` and then their current
/// packets.
pub fn supersede_lowerings_and_packets(ids: &[LoweringId], lowerings: &[LoweringState], packets: &[PacketState])
    -> (r: Result<(Vec<Supersession>, Vec<Supersession>), ZapError>)
    ensures
        match lowering_supersessions(ids@, lowerings@) {
            Err(c) => r matches Err(e) && e.code == c,
            Ok(ls) => match packet_supersessions(ids@, packets@) {
                Err(c) => r matches Err(e) && e.code == c,
                Ok(ps) => r matches Ok((a, b)) && a@ == ls && b@ == ps,
            },
        },
{
    let mut lows: Vec<Supersession> = Vec::new();
    let mut i: usize = 0;
    assert(ids@.take(0) =~= Seq::<LoweringId>::empty());
    while i < ids.len()
        invariant
            i <= ids@.len(),
            lowering_supersessions(ids@.take(i as int), lowerings@) == Ok::<Seq<Supersession>, ErrorCode>(lows@),
        decreases ids@.len() - i,
    {
        assert(ids@.take(i as int + 1).drop_last() =~= ids@.take(i as int));
        let l = match find_lowering_state(lowerings, ids[i]) {
            Some(l) => l,
            None => {
                proof {
                    lemma_lowering_error_stays(ids@, lowerings@, i as int + 1, ids@.len() as int, ErrorCode::MissingReference);
                    assert(ids@.take(ids@.len() as int) =~= ids@);
                }
                return Err(ZapError::new(ErrorCode::MissingReference));
            },
        };
        if matches!(l.state, PlanningRevisionState::Current) {
            let n = match checked_next(l.revision) {
                Ok(n) => n,
                Err(e) => {
                    proof {
                        lemma_lowering_error_stays(ids@, lowerings@, i as int + 1, ids@.len() as int, ErrorCode::InvalidValue);
                        assert(ids@.take(ids@.len() as int) =~= ids@);
                    }
                    return Err(e);
                },
            };
            lows.push(Supersession { key: l.lowering_id.0, expected: l.revision, revision: n });
        }
        i += 1;
    }
    assert(ids@.take(ids@.len() as int) =~= ids@);
    let mut packs: Vec<Supersession> = Vec::new();
    let mut j: usize = 0;
    assert(packets@.take(0) =~= Seq::<PacketState>::empty());
    while j < packets.len()
        invariant
            j <= packets@.len(),
            lowering_supersessions(ids@, lowerings@) == Ok::<Seq<Supersession>, ErrorCode>(lows@),
            packet_supersessions(ids@, packets@.take(j as int)) == Ok::<Seq<Supersession>, ErrorCode>(packs@),
        decreases packets@.len() - j,
    {
        assert(packets@.take(j as int + 1).drop_last() =~= packets@.take(j as int));
        let p = packets[j];
        if p.current && holds_lowering(ids, p.lowering_id) {
            let n = match checked_next(p.revision) {
                Ok(n) => n,
                Err(e) => {
                    proof {
                        lemma_packet_error_stays(ids@, packets@, j as int + 1, packets@.len() as int, ErrorCode::InvalidValue);
                        assert(packets@.take(packets@.len() as int) =~= packets@);
                    }
                    return Err(e);
                },
            };
            packs.push(Supersession { key: p.packet_id.0, expected: p.revision, revision: n });
        }
        j += 1;
    }
    assert(packets@.take(packets@.len() as int) =~= packets@);
    Ok((lows, packs))
}

} // verus!
