//! The rows each stored record contributes to the derived basis indexes:
//! the index, the partition it lands in, and the record it names. Every row
//! a record contributes lands in an index its family maintains.
use vstd::prelude::*;

use crate::basis_indexes::{maintains, BasisIndex, BasisRecordKind};
use crate::holds::{increasing_works, insert_work};
use crate::ids::{CharterId, ContractId, EvidenceId, FactId, ObligationId, OutcomeId, RegionId, SourceId, WorkId};
use crate::subjects::{insert_subject_ref, insert_subjects, subjects_increasing, SubjectRef};

verus! {

/// The partition of an index a row lands in.
#[derive(Clone, Copy, Debug, PartialEq, Eq, Structural)]
pub enum RowPartition {
    /// The index has a single partition.
    Whole,
    Work(WorkId),
    Subject(SubjectRef),
}

/// One index row: the index, its partition, and the identity of the record
/// it names, which is both its suffix and its value.
#[derive(Clone, Copy, Debug, PartialEq, Eq, Structural)]
pub struct IndexRow {
    pub index: BasisIndex,
    pub partition: RowPartition,
    pub record: u64,
}

/// The rows land in indexes that records of the kind maintain.
pub open spec fn rows_maintained(kind: BasisRecordKind, rows: Seq<IndexRow>) -> bool {
    forall|i: int| 0 <= i < rows.len() ==> maintains(kind, (#[trigger] rows[i]).index)
}

/// The row of an active record in a whole-index listing, or none.
pub open spec fn spec_active_row(active: bool, index: BasisIndex, id: u64) -> Seq<IndexRow> {
    if active {
        seq![IndexRow { index, partition: RowPartition::Whole, record: id }]
    } else {
        Seq::empty()
    }
}

fn active_row(active: bool, index: BasisIndex, id: u64) -> (r: Vec<IndexRow>)
    ensures
        r@ == spec_active_row(active, index, id),
{
    let mut out: Vec<IndexRow> = Vec::new();
    if active {
        out.push(IndexRow { index, partition: RowPartition::Whole, record: id });
    }
    assert(out@ =~= spec_active_row(active, index, id));
    out
}

/// Every work is listed once.
pub fn work_rows(work_id: WorkId) -> (r: Vec<IndexRow>)
    ensures
        r@ == seq![IndexRow { index: BasisIndex::WorkAll, partition: RowPartition::Whole, record: work_id.0 }],
        rows_maintained(BasisRecordKind::Work, r@),
{
    let r = vec![IndexRow { index: BasisIndex::WorkAll, partition: RowPartition::Whole, record: work_id.0 }];
    assert(r@ =~= seq![IndexRow { index: BasisIndex::WorkAll, partition: RowPartition::Whole, record: work_id.0 }]);
    r
}

/// The rows an owner list gives an obligation: one per owner, in the order
/// of the works.
pub open spec fn owner_rows(works: Seq<WorkId>, id: ObligationId) -> Seq<IndexRow> {
    works.map_values(|w: WorkId| IndexRow { index: BasisIndex::ObligationOwner, partition: RowPartition::Work(w), record: id.0 })
}

/// `ws` holds the works of `owners`, each once, in order.
pub open spec fn sorted_works_of(owners: Seq<WorkId>, ws: Seq<WorkId>) -> bool {
    &&& increasing_works(ws)
    &&& forall|w: WorkId| #[trigger] ws.contains(w) <==> owners.contains(w)
}

fn sorted_works(owners: &[WorkId]) -> (r: Vec<WorkId>)
    ensures
        sorted_works_of(owners@, r@),
{
    let mut out: Vec<WorkId> = Vec::new();
    let mut k: usize = 0;
    while k < owners.len()
        invariant
            k <= owners@.len(),
            increasing_works(out@),
            forall|w: WorkId| #[trigger] out@.contains(w) <==> owners@.take(k as int).contains(w),
        decreases owners@.len() - k,
    {
        insert_work(&mut out, owners[k]);
        proof {
            let t = owners@.take(k as int);
            assert(owners@.take(k as int + 1) =~= t.push(owners@[k as int]));
            assert forall|w: WorkId| #[trigger] out@.contains(w) <==> owners@.take(k as int + 1).contains(w) by {
                if t.push(owners@[k as int]).contains(w) && !t.contains(w) {
                    let m = choose|m: int| 0 <= m < t.len() + 1 && #[trigger] t.push(owners@[k as int])[m] == w;
                    if m < t.len() {
                        assert(t[m] == w);
                    }
                }
                if t.contains(w) {
                    let m = choose|m: int| 0 <= m < t.len() && #[trigger] t[m] == w;
                    assert(t.push(owners@[k as int])[m] == w);
                }
                if owners@[k as int] == w {
                    assert(t.push(owners@[k as int])[t.len() as int] == w);
                }
            }
        }
        k += 1;
    }
    assert(owners@.take(k as int) =~= owners@);
    out
}

/// An active obligation is listed under each of its owners, once each in
/// work order, and among the active obligations; an inactive one is not
/// listed.
pub fn obligation_rows(obligation_id: ObligationId, active: bool, owners: &[WorkId]) -> (r: Vec<IndexRow>)
    ensures
        !active ==> r@.len() == 0,
        active ==> exists|ws: Seq<WorkId>| sorted_works_of(owners@, ws) && r@ == owner_rows(ws, obligation_id).push(
            IndexRow { index: BasisIndex::ObligationActive, partition: RowPartition::Whole, record: obligation_id.0 },
        ),
        rows_maintained(BasisRecordKind::Obligation, r@),
{
    let mut out: Vec<IndexRow> = Vec::new();
    if !active {
        return out;
    }
    let ws = sorted_works(owners);
    let mut k: usize = 0;
    while k < ws.len()
        invariant
            k <= ws@.len(),
            out@ == owner_rows(ws@.take(k as int), obligation_id),
        decreases ws@.len() - k,
    {
        out.push(IndexRow { index: BasisIndex::ObligationOwner, partition: RowPartition::Work(ws[k]), record: obligation_id.0 });
        proof {
            assert(ws@.take(k as int + 1) =~= ws@.take(k as int).push(ws@[k as int]));
            assert(out@ =~= owner_rows(ws@.take(k as int + 1), obligation_id));
        }
        k += 1;
    }
    assert(ws@.take(k as int) =~= ws@);
    out.push(IndexRow { index: BasisIndex::ObligationActive, partition: RowPartition::Whole, record: obligation_id.0 });
    assert(rows_maintained(BasisRecordKind::Obligation, out@)) by {
        assert forall|i: int| 0 <= i < out@.len() implies maintains(BasisRecordKind::Obligation, (#[trigger] out@[i]).index) by {
            if i < out@.len() - 1 {
                assert(out@[i] == owner_rows(ws@, obligation_id)[i]);
            }
        }
    }
    out
}

/// An active contract is listed under its work.
pub fn contract_rows(contract_id: ContractId, work_id: WorkId, active: bool) -> (r: Vec<IndexRow>)
    ensures
        active ==> r@ == seq![IndexRow { index: BasisIndex::ActiveContractWork, partition: RowPartition::Work(work_id), record: contract_id.0 }],
        !active ==> r@.len() == 0,
        rows_maintained(BasisRecordKind::TaskContract, r@),
{
    let mut out: Vec<IndexRow> = Vec::new();
    if active {
        out.push(IndexRow { index: BasisIndex::ActiveContractWork, partition: RowPartition::Work(work_id), record: contract_id.0 });
    }
    assert(active ==> out@ =~= seq![IndexRow { index: BasisIndex::ActiveContractWork, partition: RowPartition::Work(work_id), record: contract_id.0 }]);
    out
}

/// What a source is established to cover.
pub enum SourceScope {
    Project,
    Subjects(Vec<SubjectRef>),
    Unassessed,
}

/// The rows listing a record under each of the subjects, in their order.
pub open spec fn subject_rows(subjects: Seq<SubjectRef>, index: BasisIndex, id: u64) -> Seq<IndexRow> {
    subjects.map_values(|s: SubjectRef| IndexRow { index, partition: RowPartition::Subject(s), record: id })
}

fn push_subject_rows(out: &mut Vec<IndexRow>, subjects: &[SubjectRef], index: BasisIndex, id: u64)
    ensures
        final(out)@ == old(out)@ + subject_rows(subjects@, index, id),
{
    let ghost start = out@;
    let mut k: usize = 0;
    while k < subjects.len()
        invariant
            k <= subjects@.len(),
            out@ == start + subject_rows(subjects@.take(k as int), index, id),
        decreases subjects@.len() - k,
    {
        out.push(IndexRow { index, partition: RowPartition::Subject(subjects[k]), record: id });
        proof {
            assert(subjects@.take(k as int + 1) =~= subjects@.take(k as int).push(subjects@[k as int]));
            assert(out@ =~= start + subject_rows(subjects@.take(k as int + 1), index, id));
        }
        k += 1;
    }
    assert(subjects@.take(k as int) =~= subjects@);
}

/// A project-wide source is listed once; a source scoped to subjects is
/// listed under each of them; an unassessed one is not listed.
pub fn source_rows(source_id: SourceId, scope: &SourceScope) -> (r: Vec<IndexRow>)
    ensures
        match scope {
            SourceScope::Project => r@ == seq![IndexRow { index: BasisIndex::SourceProject, partition: RowPartition::Whole, record: source_id.0 }],
            SourceScope::Subjects(s) => r@ == subject_rows(s@, BasisIndex::SourceSubject, source_id.0),
            SourceScope::Unassessed => r@.len() == 0,
        },
        rows_maintained(BasisRecordKind::Source, r@),
{
    let mut out: Vec<IndexRow> = Vec::new();
    match scope {
        SourceScope::Project => {
            out.push(IndexRow { index: BasisIndex::SourceProject, partition: RowPartition::Whole, record: source_id.0 });
            assert(out@ =~= seq![IndexRow { index: BasisIndex::SourceProject, partition: RowPartition::Whole, record: source_id.0 }]);
        },
        SourceScope::Subjects(s) => {
            push_subject_rows(&mut out, s.as_slice(), BasisIndex::SourceSubject, source_id.0);
            assert(out@ =~= subject_rows(s@, BasisIndex::SourceSubject, source_id.0));
        },
        SourceScope::Unassessed => {},
    }
    out
}

/// An adjudicated evidence item is listed once, and under each work it
/// applies to, in their order.
pub fn evidence_rows(evidence_id: EvidenceId, work_ids: &[WorkId]) -> (r: Vec<IndexRow>)
    ensures
        r@ == seq![IndexRow { index: BasisIndex::EvidenceAll, partition: RowPartition::Whole, record: evidence_id.0 }]
            + work_ids@.map_values(|w: WorkId| IndexRow { index: BasisIndex::EvidenceWork, partition: RowPartition::Work(w), record: evidence_id.0 }),
        rows_maintained(BasisRecordKind::EvidenceAdjudication, r@),
{
    let ghost head = seq![IndexRow { index: BasisIndex::EvidenceAll, partition: RowPartition::Whole, record: evidence_id.0 }];
    let mut out: Vec<IndexRow> = vec![IndexRow { index: BasisIndex::EvidenceAll, partition: RowPartition::Whole, record: evidence_id.0 }];
    let mut k: usize = 0;
    assert(out@ =~= head + work_ids@.take(0).map_values(|w: WorkId| IndexRow { index: BasisIndex::EvidenceWork, partition: RowPartition::Work(w), record: evidence_id.0 }));
    while k < work_ids.len()
        invariant
            k <= work_ids@.len(),
            head == seq![IndexRow { index: BasisIndex::EvidenceAll, partition: RowPartition::Whole, record: evidence_id.0 }],
            out@ == head + work_ids@.take(k as int).map_values(|w: WorkId| IndexRow { index: BasisIndex::EvidenceWork, partition: RowPartition::Work(w), record: evidence_id.0 }),
        decreases work_ids@.len() - k,
    {
        out.push(IndexRow { index: BasisIndex::EvidenceWork, partition: RowPartition::Work(work_ids[k]), record: evidence_id.0 });
        proof {
            assert(work_ids@.take(k as int + 1) =~= work_ids@.take(k as int).push(work_ids@[k as int]));
            assert(out@ =~= head + work_ids@.take(k as int + 1).map_values(|w: WorkId| IndexRow { index: BasisIndex::EvidenceWork, partition: RowPartition::Work(w), record: evidence_id.0 }));
        }
        k += 1;
    }
    assert(work_ids@.take(k as int) =~= work_ids@);
    out
}

/// A fact is listed under each of its subjects, in their order.
pub fn fact_rows(fact_id: FactId, subjects: &[SubjectRef]) -> (r: Vec<IndexRow>)
    ensures
        r@ == subject_rows(subjects@, BasisIndex::FactSubject, fact_id.0),
        rows_maintained(BasisRecordKind::Fact, r@),
{
    let mut out: Vec<IndexRow> = Vec::new();
    push_subject_rows(&mut out, subjects, BasisIndex::FactSubject, fact_id.0);
    assert(out@ =~= subject_rows(subjects@, BasisIndex::FactSubject, fact_id.0));
    out
}

/// The subjects a region covers: its subjects and its works, as one set.
pub open spec fn region_subjects(subjects: Seq<SubjectRef>, works: Seq<WorkId>) -> Set<SubjectRef> {
    subjects.to_set().union(works.map_values(|w: WorkId| SubjectRef::Work(w)).to_set())
}

/// A region is listed under each subject and work it covers, once each, in
/// subject order.
pub fn region_rows(region_id: RegionId, subjects: &[SubjectRef], works: &[WorkId]) -> (r: Vec<IndexRow>)
    ensures
        exists|ss: Seq<SubjectRef>| subjects_increasing(ss) && ss.to_set() == region_subjects(subjects@, works@)
            && r@ == subject_rows(ss, BasisIndex::RegionSubject, region_id.0),
        rows_maintained(BasisRecordKind::Region, r@),
{
    let mut all: Vec<SubjectRef> = Vec::new();
    insert_subjects(&mut all, subjects);
    let ghost base = all@.to_set();
    let mut k: usize = 0;
    assert(works@.take(0).map_values(|w: WorkId| SubjectRef::Work(w)).to_set() =~= Set::<SubjectRef>::empty());
    assert(base.union(Set::<SubjectRef>::empty()) =~= base);
    while k < works.len()
        invariant
            k <= works@.len(),
            subjects_increasing(all@),
            base == subjects@.to_set(),
            all@.to_set() == base.union(works@.take(k as int).map_values(|w: WorkId| SubjectRef::Work(w)).to_set()),
        decreases works@.len() - k,
    {
        insert_subject_ref(&mut all, SubjectRef::Work(works[k]));
        proof {
            let f = |w: WorkId| SubjectRef::Work(w);
            assert(works@.take(k as int + 1).map_values(f) =~= works@.take(k as int).map_values(f).push(SubjectRef::Work(works@[k as int])));
            works@.take(k as int).map_values(f).lemma_push_to_set_commute(SubjectRef::Work(works@[k as int]));
            assert(all@.to_set() =~= base.union(works@.take(k as int + 1).map_values(f).to_set()));
        }
        k += 1;
    }
    assert(works@.take(k as int) =~= works@);
    let mut out: Vec<IndexRow> = Vec::new();
    push_subject_rows(&mut out, all.as_slice(), BasisIndex::RegionSubject, region_id.0);
    assert(out@ =~= subject_rows(all@, BasisIndex::RegionSubject, region_id.0));
    out
}

/// An active intent is listed among the active intents.
pub fn intent_rows(intent_id: u64, active: bool) -> (r: Vec<IndexRow>)
    ensures
        r@ == spec_active_row(active, BasisIndex::ActiveIntent, intent_id),
        rows_maintained(BasisRecordKind::Intent, r@),
{
    active_row(active, BasisIndex::ActiveIntent, intent_id)
}

/// An active outcome is listed among the active outcomes.
pub fn outcome_rows(outcome_id: OutcomeId, active: bool) -> (r: Vec<IndexRow>)
    ensures
        r@ == spec_active_row(active, BasisIndex::ActiveOutcome, outcome_id.0),
        rows_maintained(BasisRecordKind::Outcome, r@),
{
    active_row(active, BasisIndex::ActiveOutcome, outcome_id.0)
}

/// An active charter is listed among the active charters.
pub fn charter_rows(charter_id: CharterId, active: bool) -> (r: Vec<IndexRow>)
    ensures
        r@ == spec_active_row(active, BasisIndex::ActiveCharter, charter_id.0),
        rows_maintained(BasisRecordKind::Charter, r@),
{
    active_row(active, BasisIndex::ActiveCharter, charter_id.0)
}

} // verus!
