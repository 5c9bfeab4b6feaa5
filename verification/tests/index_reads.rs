use zap::active_context::{unique_indexed, IndexAlgorithmEntry, IndexCatalog, IndexPage};
use zap::basis_indexes::BasisIndex;
use zap::error::{ErrorCode, ZapError};
use zap::ids::{DigestValue, Revision};

fn page(entries: Vec<u64>, complete: bool) -> IndexPage {
    IndexPage {
        catalog: IndexCatalog {
            version: 2,
            covered_revision: Revision(7),
            families: vec![BasisIndex::ActiveOutcome, BasisIndex::WorkAll],
            algorithms: vec![IndexAlgorithmEntry { family: BasisIndex::ActiveOutcome, fingerprint: DigestValue(40) }],
        },
        entries,
        complete,
    }
}

#[test]
fn a_unique_index_gives_its_one_record() {
    assert_eq!(unique_indexed(Ok(page(vec![3], true)), Revision(7), BasisIndex::ActiveOutcome, DigestValue(40)), Ok(Some(3)));
    assert_eq!(unique_indexed(Ok(page(vec![], true)), Revision(7), BasisIndex::ActiveOutcome, DigestValue(40)), Ok(None));
    assert_eq!(
        unique_indexed(Ok(page(vec![3, 4], true)), Revision(7), BasisIndex::ActiveOutcome, DigestValue(40)).unwrap_err().code,
        ErrorCode::Conflict
    );
    assert_eq!(
        unique_indexed(Ok(page(vec![3], false)), Revision(7), BasisIndex::ActiveOutcome, DigestValue(40)).unwrap_err().code,
        ErrorCode::Conflict
    );
}

#[test]
fn a_stale_or_unregistered_index_is_unavailable() {
    let stale = unique_indexed(Ok(page(vec![3], true)), Revision(8), BasisIndex::ActiveOutcome, DigestValue(40));
    assert_eq!(stale.unwrap_err().code, ErrorCode::Unavailable);
    let algorithm = unique_indexed(Ok(page(vec![3], true)), Revision(7), BasisIndex::ActiveOutcome, DigestValue(41));
    assert_eq!(algorithm.unwrap_err().code, ErrorCode::Unavailable);
    let unregistered = unique_indexed(Ok(page(vec![3], true)), Revision(7), BasisIndex::WorkAll, DigestValue(40));
    assert_eq!(unregistered.unwrap_err().code, ErrorCode::Unavailable);
    let mut old = page(vec![3], true);
    old.catalog.version = 1;
    assert_eq!(unique_indexed(Ok(old), Revision(7), BasisIndex::ActiveOutcome, DigestValue(40)).unwrap_err().code, ErrorCode::Unavailable);
    let unrebuilt = unique_indexed(Err(ZapError::new(ErrorCode::UnsupportedEpoch)), Revision(7), BasisIndex::ActiveOutcome, DigestValue(40));
    assert_eq!(unrebuilt.unwrap_err().code, ErrorCode::Unavailable);
    let other = unique_indexed(Err(ZapError::new(ErrorCode::CorruptStore)), Revision(7), BasisIndex::ActiveOutcome, DigestValue(40));
    assert_eq!(other.unwrap_err().code, ErrorCode::CorruptStore);
}
