//! The derived basis indexes and which record families maintain them.
use vstd::prelude::*;

verus! {

/// The basis indexes, declared in the byte order of their names.
#[derive(Clone, Copy, Debug, PartialEq, Eq, Structural)]
pub enum BasisIndex {
    ActiveCharter,
    ActiveContractWork,
    ActiveIntent,
    ActiveOutcome,
    EvidenceAll,
    EvidenceWork,
    FactSubject,
    ObligationActive,
    ObligationOwner,
    RegionSubject,
    SourceProject,
    SourceSubject,
    WorkAll,
}

/// An index's place in name order.
pub open spec fn index_rank(i: BasisIndex) -> int {
    match i {
        BasisIndex::ActiveCharter => 0,
        BasisIndex::ActiveContractWork => 1,
        BasisIndex::ActiveIntent => 2,
        BasisIndex::ActiveOutcome => 3,
        BasisIndex::EvidenceAll => 4,
        BasisIndex::EvidenceWork => 5,
        BasisIndex::FactSubject => 6,
        BasisIndex::ObligationActive => 7,
        BasisIndex::ObligationOwner => 8,
        BasisIndex::RegionSubject => 9,
        BasisIndex::SourceProject => 10,
        BasisIndex::SourceSubject => 11,
        BasisIndex::WorkAll => 12,
    }
}

/// Every basis index, in name order.
pub open spec fn all_indexes() -> Seq<BasisIndex> {
    seq![
        BasisIndex::ActiveCharter,
        BasisIndex::ActiveContractWork,
        BasisIndex::ActiveIntent,
        BasisIndex::ActiveOutcome,
        BasisIndex::EvidenceAll,
        BasisIndex::EvidenceWork,
        BasisIndex::FactSubject,
        BasisIndex::ObligationActive,
        BasisIndex::ObligationOwner,
        BasisIndex::RegionSubject,
        BasisIndex::SourceProject,
        BasisIndex::SourceSubject,
        BasisIndex::WorkAll
    ]
}

fn index_at(k: usize) -> (r: BasisIndex)
    requires
        k < 13,
    ensures
        r == all_indexes()[k as int],
        index_rank(r) == k,
{
    match k {
        0 => BasisIndex::ActiveCharter,
        1 => BasisIndex::ActiveContractWork,
        2 => BasisIndex::ActiveIntent,
        3 => BasisIndex::ActiveOutcome,
        4 => BasisIndex::EvidenceAll,
        5 => BasisIndex::EvidenceWork,
        6 => BasisIndex::FactSubject,
        7 => BasisIndex::ObligationActive,
        8 => BasisIndex::ObligationOwner,
        9 => BasisIndex::RegionSubject,
        10 => BasisIndex::SourceProject,
        11 => BasisIndex::SourceSubject,
        _ => BasisIndex::WorkAll,
    }
}

/// The registry name of an index.
pub open spec fn index_name(i: BasisIndex) -> Seq<char> {
    match i {
        BasisIndex::ActiveCharter => "zap.basis.active-charter.v1"@,
        BasisIndex::ActiveContractWork => "zap.basis.active-contract-work.v1"@,
        BasisIndex::ActiveIntent => "zap.basis.active-intent.v1"@,
        BasisIndex::ActiveOutcome => "zap.basis.active-outcome.v1"@,
        BasisIndex::EvidenceAll => "zap.basis.evidence-all.v1"@,
        BasisIndex::EvidenceWork => "zap.basis.evidence-work.v1"@,
        BasisIndex::FactSubject => "zap.basis.fact-subject.v1"@,
        BasisIndex::ObligationActive => "zap.basis.obligation-active.v1"@,
        BasisIndex::ObligationOwner => "zap.basis.obligation-owner.v1"@,
        BasisIndex::RegionSubject => "zap.basis.region-subject.v1"@,
        BasisIndex::SourceProject => "zap.basis.source-project.v1"@,
        BasisIndex::SourceSubject => "zap.basis.source-subject.v1"@,
        BasisIndex::WorkAll => "zap.basis.work-all.v1"@,
    }
}

impl BasisIndex {
    /// The registry name of the index.
    pub fn name(&self) -> (r: &'static str)
        ensures
            r@ == index_name(*self),
    {
        match self {
            BasisIndex::ActiveCharter => "zap.basis.active-charter.v1",
            BasisIndex::ActiveContractWork => "zap.basis.active-contract-work.v1",
            BasisIndex::ActiveIntent => "zap.basis.active-intent.v1",
            BasisIndex::ActiveOutcome => "zap.basis.active-outcome.v1",
            BasisIndex::EvidenceAll => "zap.basis.evidence-all.v1",
            BasisIndex::EvidenceWork => "zap.basis.evidence-work.v1",
            BasisIndex::FactSubject => "zap.basis.fact-subject.v1",
            BasisIndex::ObligationActive => "zap.basis.obligation-active.v1",
            BasisIndex::ObligationOwner => "zap.basis.obligation-owner.v1",
            BasisIndex::RegionSubject => "zap.basis.region-subject.v1",
            BasisIndex::SourceProject => "zap.basis.source-project.v1",
            BasisIndex::SourceSubject => "zap.basis.source-subject.v1",
            BasisIndex::WorkAll => "zap.basis.work-all.v1",
        }
    }
}

/// Every basis index, in name order.
pub fn basis_index_families() -> (r: Vec<BasisIndex>)
    ensures
        r@ == all_indexes(),
{
    let mut out: Vec<BasisIndex> = Vec::new();
    let mut k: usize = 0;
    while k < 13
        invariant
            k <= 13,
            out@ == all_indexes().take(k as int),
        decreases 13 - k,
    {
        out.push(index_at(k));
        proof {
            assert(all_indexes().take(k as int + 1) =~= all_indexes().take(k as int).push(all_indexes()[k as int]));
        }
        k += 1;
    }
    proof {
        assert(all_indexes().take(13) =~= all_indexes());
    }
    out
}

/// The record families that maintain basis indexes.
#[derive(Clone, Copy, Debug, PartialEq, Eq, Structural)]
pub enum BasisRecordKind {
    Work,
    Obligation,
    TaskContract,
    Source,
    EvidenceAdjudication,
    Fact,
    Region,
    Intent,
    Outcome,
    Charter,
    Other,
}

/// Whether records of a kind maintain an index.
pub open spec fn maintains(kind: BasisRecordKind, index: BasisIndex) -> bool {
    match kind {
        BasisRecordKind::Work => index == BasisIndex::WorkAll,
        BasisRecordKind::Obligation => index == BasisIndex::ObligationOwner || index == BasisIndex::ObligationActive,
        BasisRecordKind::TaskContract => index == BasisIndex::ActiveContractWork,
        BasisRecordKind::Source => index == BasisIndex::SourceSubject || index == BasisIndex::SourceProject,
        BasisRecordKind::EvidenceAdjudication => index == BasisIndex::EvidenceWork || index == BasisIndex::EvidenceAll,
        BasisRecordKind::Fact => index == BasisIndex::FactSubject,
        BasisRecordKind::Region => index == BasisIndex::RegionSubject,
        BasisRecordKind::Intent => index == BasisIndex::ActiveIntent,
        BasisRecordKind::Outcome => index == BasisIndex::ActiveOutcome,
        BasisRecordKind::Charter => index == BasisIndex::ActiveCharter,
        BasisRecordKind::Other => false,
    }
}

fn kind_maintains(kind: BasisRecordKind, index: BasisIndex) -> (r: bool)
    ensures
        r == maintains(kind, index),
{
    match kind {
        BasisRecordKind::Work => matches!(index, BasisIndex::WorkAll),
        BasisRecordKind::Obligation => matches!(index, BasisIndex::ObligationOwner | BasisIndex::ObligationActive),
        BasisRecordKind::TaskContract => matches!(index, BasisIndex::ActiveContractWork),
        BasisRecordKind::Source => matches!(index, BasisIndex::SourceSubject | BasisIndex::SourceProject),
        BasisRecordKind::EvidenceAdjudication => matches!(index, BasisIndex::EvidenceWork | BasisIndex::EvidenceAll),
        BasisRecordKind::Fact => matches!(index, BasisIndex::FactSubject),
        BasisRecordKind::Region => matches!(index, BasisIndex::RegionSubject),
        BasisRecordKind::Intent => matches!(index, BasisIndex::ActiveIntent),
        BasisRecordKind::Outcome => matches!(index, BasisIndex::ActiveOutcome),
        BasisRecordKind::Charter => matches!(index, BasisIndex::ActiveCharter),
        BasisRecordKind::Other => false,
    }
}

/// Some record of the list maintains the index.
pub open spec fn maintained(records: Seq<BasisRecordKind>, index: BasisIndex) -> bool {
    exists|k: int| 0 <= k < records.len() && maintains(#[trigger] records[k], index)
}

/// The indexes maintained by the given record families, in name order and
/// each once.
pub fn basis_index_families_for_records(records: &[BasisRecordKind]) -> (r: Vec<BasisIndex>)
    ensures
        r@ == all_indexes().filter(|i: BasisIndex| maintained(records@, i)),
{
    let ghost keep = |i: BasisIndex| maintained(records@, i);
    let mut out: Vec<BasisIndex> = Vec::new();
    let mut k: usize = 0;
    proof {
        assert(all_indexes().take(0).filter(keep) =~= Seq::<BasisIndex>::empty());
    }
    while k < 13
        invariant
            k <= 13,
            keep == (|i: BasisIndex| maintained(records@, i)),
            out@ == all_indexes().take(k as int).filter(keep),
        decreases 13 - k,
    {
        let index = index_at(k);
        let mut used = false;
        let mut m: usize = 0;
        while m < records.len()
            invariant
                m <= records.len(),
                used == (exists|j: int| 0 <= j < m && maintains(#[trigger] records@[j], index)),
            decreases records.len() - m,
        {
            if kind_maintains(records[m], index) {
                used = true;
            }
            m += 1;
        }
        proof {
            let prefix = all_indexes().take(k as int);
            assert(all_indexes().take(k as int + 1) =~= prefix.push(index));
            prefix.lemma_filter_push(index, keep);
        }
        if used {
            out.push(index);
        }
        k += 1;
    }
    proof {
        assert(all_indexes().take(13) =~= all_indexes());
    }
    out
}

} // verus!
