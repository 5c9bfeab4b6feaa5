use zap::basis_indexes::{basis_index_families, basis_index_families_for_records, BasisIndex, BasisRecordKind};

#[test]
fn families_are_listed_in_name_order() {
    let names: Vec<&str> = basis_index_families().iter().map(|f| f.name()).collect();
    assert_eq!(names.len(), 13);
    let mut sorted = names.clone();
    sorted.sort();
    assert_eq!(names, sorted);
    assert_eq!(names[0], "zap.basis.active-charter.v1");
    assert_eq!(names[12], "zap.basis.work-all.v1");
}

#[test]
fn record_families_select_their_indexes_once() {
    let records = [BasisRecordKind::Source, BasisRecordKind::Work, BasisRecordKind::Source, BasisRecordKind::Other];
    let families = basis_index_families_for_records(&records);
    assert_eq!(families, vec![BasisIndex::SourceProject, BasisIndex::SourceSubject, BasisIndex::WorkAll]);
}

#[test]
fn unknown_record_families_maintain_nothing() {
    assert!(basis_index_families_for_records(&[BasisRecordKind::Other]).is_empty());
    assert!(basis_index_families_for_records(&[]).is_empty());
}

#[test]
fn obligations_maintain_two_indexes() {
    let families = basis_index_families_for_records(&[BasisRecordKind::Obligation]);
    let names: Vec<&str> = families.iter().map(|f| f.name()).collect();
    assert_eq!(names, vec!["zap.basis.obligation-active.v1", "zap.basis.obligation-owner.v1"]);
}
