use zap::change::{ChangeSet, ChangeSetOverlay, MutationKind, RecordDescriptor, RecordSet, RecordSnapshot, RequirementRef, StoredRow};
use zap::error::ErrorCode;
use zap::names::RecordFamily;

fn family(name: &str) -> RecordFamily {
    RecordFamily::parse(name).unwrap()
}

fn descriptor(name: &str) -> RecordDescriptor {
    RecordDescriptor { family: family(name) }
}

fn registered() -> RecordSet {
    RecordSet::from_families(vec![family("zap.work"), family("zap.fact")])
}

fn snapshot() -> RecordSnapshot {
    RecordSnapshot::new(
        4,
        vec![StoredRow { family: family("zap.work"), key: vec![1], version: vec![9], value: b"old".to_vec() }],
    )
}

#[test]
fn a_second_write_to_one_record_conflicts() {
    let mut changes = ChangeSet::new();
    assert!(changes.is_empty());
    changes.insert(descriptor("zap.work"), vec![2], vec![1], b"a".to_vec()).unwrap();
    let again = changes.replace(descriptor("zap.work"), vec![2], vec![1], vec![2], b"b".to_vec());
    assert_eq!(again.unwrap_err().code, ErrorCode::Conflict);
    changes.insert(descriptor("zap.work"), vec![3], vec![1], b"c".to_vec()).unwrap();
    assert_eq!(changes.len(), 2);
}

#[test]
fn prepared_mutations_come_in_key_order() {
    let mut changes = ChangeSet::new();
    changes.insert(descriptor("zap.work"), vec![7], vec![1], b"x".to_vec()).unwrap();
    changes.remove(descriptor("zap.fact"), vec![1], vec![3]).unwrap();
    changes.insert(descriptor("zap.work"), vec![2], vec![1], b"y".to_vec()).unwrap();
    changes.require(RequirementRef::new("inv.b"));
    changes.require(RequirementRef::new("inv.a"));
    changes.require(RequirementRef::new("inv.b"));
    let prepared = changes.prepare(&registered()).unwrap();
    let keys: Vec<(String, Vec<u8>)> =
        prepared.iter().map(|m| (m.descriptor().family.as_str().to_string(), m.key().to_vec())).collect();
    assert_eq!(
        keys,
        vec![("zap.fact".to_string(), vec![1]), ("zap.work".to_string(), vec![2]), ("zap.work".to_string(), vec![7])]
    );
    assert_eq!(prepared[0].kind(), MutationKind::Remove);
    assert_eq!(prepared[0].expected_version(), Some(&[3u8][..]));
    assert_eq!(prepared[0].value(), None);
    assert_eq!(prepared[1].new_version(), Some(&[1u8][..]));
}

#[test]
fn unregistered_families_are_an_internal_error() {
    let mut changes = ChangeSet::new();
    changes.insert(descriptor("zap.other"), vec![1], vec![1], b"x".to_vec()).unwrap();
    assert_eq!(changes.prepare(&registered()).unwrap_err().code, ErrorCode::InternalInvariant);
    let base = snapshot();
    let overlay = ChangeSetOverlay::new(&base, &changes, &registered(), &[family("zap.other")]);
    assert_eq!(overlay.err().unwrap().code, ErrorCode::InternalInvariant);
}

#[test]
fn the_overlay_reads_its_own_writes() {
    let base = snapshot();
    let mut changes = ChangeSet::new();
    changes.insert(descriptor("zap.work"), vec![2], vec![1], b"new".to_vec()).unwrap();
    changes.replace(descriptor("zap.work"), vec![1], vec![9], vec![10], b"newer".to_vec()).unwrap();
    let overlay = ChangeSetOverlay::new(&base, &changes, &registered(), &[family("zap.work")]).unwrap();
    assert_eq!(overlay.revision(), 4);
    assert_eq!(overlay.get_erased(&family("zap.work"), &[2]), Some(b"new".to_vec()));
    assert_eq!(overlay.get_erased(&family("zap.work"), &[1]), Some(b"newer".to_vec()));
    assert_eq!(overlay.get_erased(&family("zap.work"), &[5]), None);
}

#[test]
fn a_removal_hides_the_record() {
    let base = snapshot();
    let mut changes = ChangeSet::new();
    changes.remove(descriptor("zap.work"), vec![1], vec![9]).unwrap();
    let overlay = ChangeSetOverlay::new(&base, &changes, &registered(), &[family("zap.work")]).unwrap();
    assert_eq!(overlay.get_erased(&family("zap.work"), &[1]), None);
}

#[test]
fn an_untouched_record_reads_from_the_snapshot() {
    let base = snapshot();
    let changes = ChangeSet::new();
    let overlay = ChangeSetOverlay::new(&base, &changes, &registered(), &[]).unwrap();
    assert_eq!(overlay.get_erased(&family("zap.work"), &[1]), Some(b"old".to_vec()));
    assert!(base.get(&family("zap.work"), &[1]).is_some());
    assert!(base.get(&family("zap.fact"), &[1]).is_none());
}

#[test]
fn writes_that_contradict_the_prestate_conflict() {
    let base = snapshot();
    let mut insert_existing = ChangeSet::new();
    insert_existing.insert(descriptor("zap.work"), vec![1], vec![1], b"x".to_vec()).unwrap();
    let r = ChangeSetOverlay::new(&base, &insert_existing, &registered(), &[family("zap.work")]);
    assert_eq!(r.err().unwrap().code, ErrorCode::Conflict);

    let mut stale = ChangeSet::new();
    stale.replace(descriptor("zap.work"), vec![1], vec![8], vec![10], b"x".to_vec()).unwrap();
    let r = ChangeSetOverlay::new(&base, &stale, &registered(), &[family("zap.work")]);
    assert_eq!(r.err().unwrap().code, ErrorCode::Conflict);

    let mut missing = ChangeSet::new();
    missing.remove(descriptor("zap.work"), vec![6], vec![1]).unwrap();
    let r = ChangeSetOverlay::new(&base, &missing, &registered(), &[family("zap.work")]);
    assert_eq!(r.err().unwrap().code, ErrorCode::Conflict);
}

#[test]
fn undeclared_families_conflict() {
    let base = snapshot();
    let mut changes = ChangeSet::new();
    changes.insert(descriptor("zap.fact"), vec![1], vec![1], b"x".to_vec()).unwrap();
    let r = ChangeSetOverlay::new(&base, &changes, &registered(), &[family("zap.work")]);
    assert_eq!(r.err().unwrap().code, ErrorCode::Conflict);
}

#[test]
fn every_prepared_mutation_fits_its_kind() {
    let mut changes = ChangeSet::new();
    changes.insert(descriptor("zap.work"), vec![1], vec![1], b"a".to_vec()).unwrap();
    changes.replace(descriptor("zap.work"), vec![2], vec![1], vec![2], b"b".to_vec()).unwrap();
    changes.remove(descriptor("zap.work"), vec![3], vec![4]).unwrap();
    let prepared = changes.prepare(&registered()).unwrap();
    assert_eq!(prepared.len(), 3);
    for m in &prepared {
        assert_eq!(m.kind() == MutationKind::Insert, m.expected_version().is_none());
        assert_eq!(m.kind() == MutationKind::Remove, m.new_version().is_none());
        assert_eq!(m.kind() != MutationKind::Remove, m.value().is_some());
    }
}
