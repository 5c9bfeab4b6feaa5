use zap::authority::{ActorRef, OperationRef, PrincipalRole};
use zap::error::ErrorCode;
use zap::ids::{
    AttemptId, BundleId, CapabilityObservationId, CommandId, DigestValue, EncounterId, ForkId, JobId, PacketId, PrincipalId,
    SourceId, StopRuleId,
};
use zap::offline::{
    validate_delta, BundleAttemptBinding, BundleEntryBinding, BundleForkBinding, BundlePacketBinding, BundleRuleBinding,
    BundleSourceBinding, CapabilityBinding, CharterPermissionBinding, EncounterKind, EncounterSeal, OfflineEncounter,
    OfflineEncounterJournal, StopRuleBinding, WeakBundleManifest,
};

fn producer(n: u64) -> ActorRef {
    ActorRef { principal_id: PrincipalId(n), operation: OperationRef::Command(CommandId(n)), role: PrincipalRole::Worker }
}

fn manifest() -> WeakBundleManifest {
    WeakBundleManifest {
        bundle_id: BundleId(1),
        packets: vec![
            BundlePacketBinding { packet_id: PacketId(20), packet_digest: DigestValue(200) },
            BundlePacketBinding { packet_id: PacketId(10), packet_digest: DigestValue(100) },
        ],
        attempts: vec![
            BundleAttemptBinding { packet_id: PacketId(10), job_id: JobId(1), attempt_id: AttemptId(11), producer: producer(1) },
            BundleAttemptBinding { packet_id: PacketId(20), job_id: JobId(2), attempt_id: AttemptId(21), producer: producer(2) },
        ],
        sources: vec![BundleSourceBinding { source_id: SourceId(3), digest: DigestValue(30) }],
        rules: vec![BundleRuleBinding { source_id: SourceId(4), digest: DigestValue(40) }],
        forks: vec![BundleForkBinding { fork_id: ForkId(7), semantic_digest: DigestValue(70) }],
        capabilities: vec![CapabilityBinding { observation_id: CapabilityObservationId(5) }],
        permissions: vec![CharterPermissionBinding { permission: 6 }],
        stop_rules: vec![StopRuleBinding { stop_rule_id: StopRuleId(8), digest: DigestValue(80) }],
        entries: vec![BundleEntryBinding { entry: 2, byte_len: 10 }, BundleEntryBinding { entry: 1, byte_len: 5 }],
        maximum_archive_bytes: 15,
        maximum_encounters: 2,
        maximum_return_bytes: 100,
        encounter_genesis: DigestValue(0),
        digest: DigestValue(0),
    }
}

fn codec_seal(m: WeakBundleManifest) -> Result<WeakBundleManifest, zap::error::ZapError> {
    m.seal(DigestValue(999), DigestValue(1000))
}

fn encounter(id: u64, sequence: u32, previous: u64, job: u64, digest: u64) -> OfflineEncounter {
    OfflineEncounter {
        encounter_id: EncounterId(id),
        sequence,
        previous_digest: DigestValue(previous),
        job_id: JobId(job),
        attempt_id: AttemptId(job * 10 + 1),
        packet_id: PacketId(job * 10),
        producer: producer(job),
        kind: EncounterKind::Other,
        selected_fork: None,
        causes: vec![],
        digest: DigestValue(digest),
    }
}

fn seal(digest: u64, bytes: u64) -> EncounterSeal {
    EncounterSeal { digest: DigestValue(digest), encoded_bytes: bytes }
}

#[test]
fn sealing_orders_every_list() {
    let sealed = codec_seal(manifest()).unwrap();
    let packets: Vec<u64> = sealed.packets.iter().map(|p| p.packet_id.0).collect();
    assert_eq!(packets, vec![10, 20]);
    let entries: Vec<u64> = sealed.entries.iter().map(|e| e.entry).collect();
    assert_eq!(entries, vec![1, 2]);
    assert!(sealed.is_sealed());
    assert!(!manifest().is_sealed());
}

#[test]
fn sealing_refuses_an_open_closure() {
    let mut no_packets = manifest();
    no_packets.packets.clear();
    no_packets.attempts.clear();
    assert_eq!(codec_seal(no_packets).unwrap_err().code, ErrorCode::InvalidValue);

    let mut unattempted = manifest();
    unattempted.attempts[1].packet_id = PacketId(30);
    assert!(codec_seal(unattempted).is_err());

    let mut duplicated = manifest();
    duplicated.sources.push(BundleSourceBinding { source_id: SourceId(3), digest: DigestValue(30) });
    assert!(codec_seal(duplicated).is_err());

    let mut no_permission = manifest();
    no_permission.permissions.clear();
    assert!(codec_seal(no_permission).is_err());
}

#[test]
fn sealing_bounds_the_archive() {
    let mut too_large = manifest();
    too_large.maximum_archive_bytes = 14;
    assert!(codec_seal(too_large).is_err());
    let mut empty_entry = manifest();
    empty_entry.entries.push(BundleEntryBinding { entry: 3, byte_len: 0 });
    assert!(codec_seal(empty_entry).is_err());
    let mut overflowing = manifest();
    overflowing.maximum_archive_bytes = u64::MAX;
    overflowing.entries = vec![BundleEntryBinding { entry: 1, byte_len: u64::MAX }, BundleEntryBinding { entry: 2, byte_len: 1 }];
    assert!(codec_seal(overflowing).is_err());
    let mut zero_bound = manifest();
    zero_bound.maximum_encounters = 0;
    assert!(codec_seal(zero_bound).is_err());
}

#[test]
fn a_journal_needs_a_sealed_manifest() {
    assert_eq!(OfflineEncounterJournal::new(&manifest(), DigestValue(1000)).err().unwrap().code, ErrorCode::InvalidValue);
    assert!(OfflineEncounterJournal::new(&codec_seal(manifest()).unwrap(), DigestValue(1000)).is_ok());
}

#[test]
fn a_journal_needs_the_manifest_digest() {
    let sealed = codec_seal(manifest()).unwrap();
    assert_eq!(OfflineEncounterJournal::new(&sealed, DigestValue(1001)).err().unwrap().code, ErrorCode::InvalidValue);
}

#[test]
fn the_journal_chains_encounters_from_the_genesis() {
    let sealed = codec_seal(manifest()).unwrap();
    let mut journal = OfflineEncounterJournal::new(&sealed, DigestValue(1000)).unwrap();
    journal.append(encounter(1, 0, 999, 1, 500), seal(500, 40)).unwrap();
    let mut second = encounter(2, 1, 500, 2, 600);
    second.causes = vec![EncounterId(1)];
    journal.append(second, seal(600, 40)).unwrap();
    let delta = journal.finish();
    assert_eq!(delta.previous_digest, DigestValue(999));
    assert_eq!(delta.final_digest, DigestValue(600));
    assert_eq!(delta.first_sequence, 0);
    assert_eq!(delta.encoded_bytes, 80);
    assert_eq!(delta.encounters.len(), 2);
    assert_eq!(delta.source_bundle_id, BundleId(1));
    assert_eq!(delta.source_manifest_digest, DigestValue(1000));
}

#[test]
fn a_broken_chain_is_refused() {
    let sealed = codec_seal(manifest()).unwrap();
    let mut journal = OfflineEncounterJournal::new(&sealed, DigestValue(1000)).unwrap();
    assert!(journal.append(encounter(1, 1, 999, 1, 500), seal(500, 1)).is_err());
    assert!(journal.append(encounter(1, 0, 998, 1, 500), seal(500, 1)).is_err());
    assert!(journal.append(encounter(1, 0, 999, 1, 500), seal(501, 1)).is_err());
    assert!(journal.append(encounter(1, 0, 999, 9, 500), seal(500, 1)).is_err());
    let mut wrong_attempt = encounter(1, 0, 999, 1, 500);
    wrong_attempt.attempt_id = AttemptId(21);
    assert!(journal.append(wrong_attempt, seal(500, 1)).is_err());
    let mut unknown_cause = encounter(1, 0, 999, 1, 500);
    unknown_cause.causes = vec![EncounterId(4)];
    assert!(journal.append(unknown_cause, seal(500, 1)).is_err());
    journal.append(encounter(1, 0, 999, 1, 500), seal(500, 1)).unwrap();
    assert_eq!(journal.finish().encounters.len(), 1);
}

#[test]
fn fork_selections_name_a_bundle_fork() {
    let sealed = codec_seal(manifest()).unwrap();
    let mut journal = OfflineEncounterJournal::new(&sealed, DigestValue(1000)).unwrap();
    let mut unknown = encounter(1, 0, 999, 1, 500);
    unknown.kind = EncounterKind::ForkSelected;
    unknown.selected_fork = Some(ForkId(8));
    assert!(journal.append(unknown, seal(500, 1)).is_err());
    let mut stray = encounter(1, 0, 999, 1, 500);
    stray.selected_fork = Some(ForkId(7));
    assert!(journal.append(stray, seal(500, 1)).is_err());
    let mut known = encounter(1, 0, 999, 1, 500);
    known.kind = EncounterKind::ForkSelected;
    known.selected_fork = Some(ForkId(7));
    assert!(journal.append(known, seal(500, 1)).is_ok());
}

#[test]
fn the_delta_stays_within_its_bounds() {
    let sealed = codec_seal(manifest()).unwrap();
    let mut journal = OfflineEncounterJournal::new(&sealed, DigestValue(1000)).unwrap();
    assert!(journal.append(encounter(1, 0, 999, 1, 500), seal(500, 101)).is_err());
    journal.append(encounter(1, 0, 999, 1, 500), seal(500, 60)).unwrap();
    assert!(journal.append(encounter(2, 1, 500, 2, 600), seal(600, 41)).is_err());
    journal.append(encounter(2, 1, 500, 2, 600), seal(600, 40)).unwrap();
    assert!(journal.append(encounter(3, 2, 600, 1, 700), seal(700, 0)).is_err());
}

#[test]
fn a_returned_delta_validates_by_replay() {
    let sealed = codec_seal(manifest()).unwrap();
    let mut journal = OfflineEncounterJournal::new(&sealed, DigestValue(1000)).unwrap();
    journal.append(encounter(1, 0, 999, 1, 500), seal(500, 30)).unwrap();
    journal.append(encounter(2, 1, 500, 2, 600), seal(600, 30)).unwrap();
    let delta = journal.finish();
    let seals = [seal(500, 30), seal(600, 30)];
    assert!(validate_delta(&sealed, DigestValue(1000), &delta, &seals).is_ok());
    assert_eq!(validate_delta(&sealed, DigestValue(1000), &delta, &[seal(500, 30), seal(601, 30)]).unwrap_err().code, ErrorCode::InvalidValue);
    assert!(validate_delta(&sealed, DigestValue(1000), &delta, &[seal(500, 30), seal(600, 31)]).is_err());
    assert!(validate_delta(&manifest(), DigestValue(1000), &delta, &seals).is_err());
    assert!(validate_delta(&sealed, DigestValue(7), &delta, &seals).is_err());
}

#[test]
fn sealing_ignores_the_order_of_lists() {
    let mut reordered = manifest();
    reordered.packets.reverse();
    reordered.attempts.reverse();
    reordered.entries.reverse();
    let a = codec_seal(manifest()).unwrap();
    let b = codec_seal(reordered).unwrap();
    assert_eq!(a.packets, b.packets);
    assert_eq!(a.attempts, b.attempts);
    assert_eq!(a.entries, b.entries);
}

#[test]
fn sealing_a_sealed_manifest_changes_nothing() {
    let once = codec_seal(manifest()).unwrap();
    let packets = once.packets.clone();
    let attempts = once.attempts.clone();
    let entries = once.entries.clone();
    let twice = codec_seal(once).unwrap();
    assert_eq!(twice.packets, packets);
    assert_eq!(twice.attempts, attempts);
    assert_eq!(twice.entries, entries);
    assert_eq!(twice.digest, DigestValue(1000));
}

#[test]
fn a_finished_delta_round_trips_and_a_changed_one_does_not() {
    let sealed = codec_seal(manifest()).unwrap();
    let mut journal = OfflineEncounterJournal::new(&sealed, DigestValue(1000)).unwrap();
    journal.append(encounter(1, 0, 999, 1, 500), seal(500, 30)).unwrap();
    let delta = journal.finish();
    let seals = [seal(500, 30)];
    assert!(validate_delta(&sealed, DigestValue(1000), &delta, &seals).is_ok());
    let mut changed = journal_delta_copy(&delta);
    changed.final_digest = DigestValue(501);
    assert!(validate_delta(&sealed, DigestValue(1000), &changed, &seals).is_err());
    let mut recounted = journal_delta_copy(&delta);
    recounted.encoded_bytes = 31;
    assert!(validate_delta(&sealed, DigestValue(1000), &recounted, &seals).is_err());
}

fn journal_delta_copy(d: &zap::offline::EncounterDelta) -> zap::offline::EncounterDelta {
    zap::offline::EncounterDelta {
        source_bundle_id: d.source_bundle_id,
        source_manifest_digest: d.source_manifest_digest,
        first_sequence: d.first_sequence,
        previous_digest: d.previous_digest,
        final_digest: d.final_digest,
        encounters: d.encounters.clone(),
        encoded_bytes: d.encoded_bytes,
    }
}

#[test]
fn sealing_takes_the_codec_digests_of_the_ordered_form() {
    let ordered = manifest().order_bindings().unwrap();
    assert_eq!(ordered.digest, DigestValue(0));
    assert_eq!(ordered.encounter_genesis, DigestValue(0));
    let packets: Vec<u64> = ordered.packets.iter().map(|p| p.packet_id.0).collect();
    assert_eq!(packets, vec![10, 20]);
    let sealed = manifest().seal(DigestValue(5), DigestValue(6)).unwrap();
    assert_eq!(sealed.encounter_genesis, DigestValue(5));
    assert_eq!(sealed.digest, DigestValue(6));
    assert_eq!(sealed.packets, ordered.packets);
    assert!(OfflineEncounterJournal::new(&sealed, DigestValue(6)).is_ok());
    assert!(OfflineEncounterJournal::new(&ordered, DigestValue(6)).is_err());
}
