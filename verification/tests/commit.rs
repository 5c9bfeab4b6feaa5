use zap::commit::{
    action_product_outcome, check_privileged_authority_v1, check_privileged_authority_v2, check_replayed_results, ActionProductOutcome, ExpectedEffect, ReplayedResults, BasisBinding, CanonicalOutput, CommitDisposition, CommitReceipt, CommitReceiptParts, DescriptorRequirements,
    LogicalEventSchema, ProviderWiring, RecordedShape, ReplayedTransition, TransactionNonce, TransactionPermit,
    EventHeaderFacts, EvaluatedView, check_action_presence_v1, check_action_presence_v2, check_basis_binding,
    check_evaluated_view, check_provider_wiring, check_recorded_shape, check_replay_header, select_logical_event_schema,
};
use zap::error::{EpochFamily, ErrorCode, ErrorDetail};
use zap::identity::{CodecEpoch, ReducerEpoch, StoreEpoch, StoreIdentity};
use zap::ids::{ActionClass, AdmissionId, BaseId, CampaignId, CommandId, DigestValue, EventId, Revision, StoreId, TransactionId};

fn identity(epoch: StoreEpoch) -> StoreIdentity {
    StoreIdentity {
        store_id: StoreId(1),
        campaign_id: CampaignId(2),
        base_id: BaseId(3),
        store_epoch: epoch,
        codec_epoch: CodecEpoch(1),
        reducer_epoch: ReducerEpoch(1),
    }
}

fn parts(epoch: StoreEpoch) -> CommitReceiptParts {
    CommitReceiptParts {
        store: identity(epoch),
        command_id: CommandId(4),
        event_id: EventId(5),
        transaction_id: TransactionId(6),
        revision: Revision(7),
        event_digest: DigestValue(8),
        output: CanonicalOutput::new(vec![1, 2, 3]),
        disposition: CommitDisposition::Committed,
    }
}

#[test]
fn permit_binds_only_its_own_store() {
    let permit = TransactionPermit::new(identity(StoreEpoch::Zap2));
    let nonce = TransactionNonce::from_store_bytes([7; 16]);
    let binding = permit.bind(identity(StoreEpoch::Zap2), Revision(10), nonce.clone()).ok().unwrap();
    assert_eq!(binding.identity(), &identity(StoreEpoch::Zap2));
    assert_eq!(binding.head(), Revision(10));
    let other = StoreIdentity { base_id: BaseId(9), ..identity(StoreEpoch::Zap2) };
    assert_eq!(permit.bind(other, Revision(10), nonce.clone()).err().unwrap().code, ErrorCode::Conflict);
    let recoded = StoreIdentity { codec_epoch: CodecEpoch(2), ..identity(StoreEpoch::Zap2) };
    assert!(permit.bind(recoded, Revision(10), nonce.clone()).is_err());
    let reduced = StoreIdentity { reducer_epoch: ReducerEpoch(2), ..identity(StoreEpoch::Zap2) };
    assert!(permit.bind(reduced, Revision(10), nonce).is_err());
}

#[test]
fn receipts_come_only_from_current_epoch_stores() {
    assert_eq!(CommitReceipt::from_validated_parts(parts(StoreEpoch::Zap1)).err().unwrap().code, ErrorCode::Conflict);
    let receipt = CommitReceipt::from_validated_parts(parts(StoreEpoch::Zap2)).ok().unwrap();
    assert_eq!(receipt.store(), &identity(StoreEpoch::Zap2));
    assert_eq!(receipt.command_id(), &CommandId(4));
    assert_eq!(receipt.event_id(), &EventId(5));
    assert_eq!(receipt.transaction_id(), &TransactionId(6));
    assert_eq!(receipt.revision(), Revision(7));
    assert_eq!(receipt.event_digest(), DigestValue(8));
    assert_eq!(receipt.output().as_bytes(), &[1, 2, 3]);
    assert_eq!(receipt.disposition(), CommitDisposition::Committed);
    let retry = receipt.clone().into_exact_retry();
    assert_eq!(retry.disposition(), CommitDisposition::ExactRetry);
    assert_eq!(retry.revision(), Revision(7));
    assert_eq!(receipt.into_reconciled().disposition(), CommitDisposition::ReconciledCommitted);
}

#[test]
fn logical_event_schema_selection() {
    assert_eq!(select_logical_event_schema(1).ok(), Some(LogicalEventSchema::Schema1));
    assert_eq!(select_logical_event_schema(2).ok(), Some(LogicalEventSchema::Schema2));
    assert_eq!(select_logical_event_schema(3).err().unwrap().code, ErrorCode::UnsupportedEpoch);
    assert_eq!(select_logical_event_schema(0).err().unwrap().code, ErrorCode::UnsupportedEpoch);
}

#[test]
fn replay_header_must_continue_the_state() {
    let store = identity(StoreEpoch::Zap2);
    let good = EventHeaderFacts {
        schema_version: 2,
        store,
        revision: Revision(11),
        previous_revision: Revision(10),
        expected_revision: Revision(10),
    };
    assert!(check_replay_header(&good, 2, &store, Revision(10)).is_ok());
    assert_eq!(check_replay_header(&good, 1, &store, Revision(10)).unwrap_err().code, ErrorCode::InternalInvariant);
    let skipped = EventHeaderFacts { revision: Revision(12), ..good };
    assert_eq!(check_replay_header(&skipped, 2, &store, Revision(10)).unwrap_err().code, ErrorCode::InternalInvariant);
    let foreign = EventHeaderFacts { store: identity(StoreEpoch::Zap1), ..good };
    assert!(check_replay_header(&foreign, 2, &store, Revision(10)).is_err());
    let recoded = EventHeaderFacts { store: StoreIdentity { codec_epoch: CodecEpoch(2), ..store }, ..good };
    assert!(check_replay_header(&recoded, 2, &store, Revision(10)).is_err());
    assert_eq!(check_replay_header(&good, 2, &store, Revision(u64::MAX)).unwrap_err().code, ErrorCode::InvalidValue);
}

#[test]
fn recorded_shape_follows_the_descriptor() {
    let d = DescriptorRequirements {
        reducer_epoch: 1,
        requires_completion: true,
        requires_dispatch_eligibility: true,
        requires_affected_jobs: false,
        requires_packet_resolution: false,
    };
    let e = RecordedShape {
        reducer_epoch: 1,
        has_completion: true,
        has_dispatch_eligibility: true,
        has_affected_jobs: false,
        has_packet_resolution: false,
    };
    assert!(check_recorded_shape(LogicalEventSchema::Schema1, &d, &e).is_ok());
    assert!(check_recorded_shape(LogicalEventSchema::Schema2, &d, &e).is_ok());
    let without_dispatch = RecordedShape { has_dispatch_eligibility: false, ..e };
    assert_eq!(
        check_recorded_shape(LogicalEventSchema::Schema1, &d, &without_dispatch).unwrap_err().code,
        ErrorCode::InternalInvariant
    );
    assert!(check_recorded_shape(LogicalEventSchema::Schema2, &d, &without_dispatch).is_ok());
    let other_epoch = RecordedShape { reducer_epoch: 2, ..e };
    assert!(check_recorded_shape(LogicalEventSchema::Schema2, &d, &other_epoch).is_err());
}

#[test]
fn basis_binding_must_match_the_cell() {
    assert!(check_basis_binding(true, BasisBinding::Exact(DigestValue(3)), DigestValue(3)).is_ok());
    assert!(check_basis_binding(true, BasisBinding::Exact(DigestValue(3)), DigestValue(4)).is_err());
    assert!(check_basis_binding(true, BasisBinding::NotApplicable, DigestValue(4)).is_err());
    assert!(check_basis_binding(false, BasisBinding::Exact(DigestValue(3)), DigestValue(3)).is_err());
    assert!(check_basis_binding(false, BasisBinding::NotApplicable, DigestValue(3)).is_ok());
}

#[test]
fn provider_wiring_requires_the_providers_cells_need() {
    let none = ProviderWiring {
        privileged_routes: false,
        effect_bundles: false,
        affected_scope_cells: false,
        safe_job_cells: false,
        packet_resolution_cells: false,
        action_impact: false,
        action_admission: false,
        basis: false,
        affected_scope: false,
        affected_jobs: false,
        packet_resolution: false,
        dispatch_eligibility: false,
    };
    assert!(check_provider_wiring(&none).is_ok());
    let bundles = ProviderWiring { effect_bundles: true, ..none };
    assert_eq!(check_provider_wiring(&bundles).unwrap_err().code, ErrorCode::Conflict);
    assert!(check_provider_wiring(&ProviderWiring { basis: true, ..bundles }).is_ok());
    let privileged = ProviderWiring {
        privileged_routes: true,
        action_impact: true,
        action_admission: true,
        basis: true,
        affected_scope: true,
        ..none
    };
    assert!(check_provider_wiring(&privileged).is_err());
    assert!(check_provider_wiring(&ProviderWiring { affected_jobs: true, ..privileged }).is_ok());
    let packets = ProviderWiring { packet_resolution_cells: true, packet_resolution: true, ..none };
    assert!(check_provider_wiring(&packets).is_err());
}

#[test]
fn replayed_transition_keeps_its_rows() {
    let t = ReplayedTransition::new(Vec::new(), Vec::new());
    assert!(t.mutations().is_empty());
    assert!(t.index_rows().is_empty());
}

#[test]
fn privileged_replay_needs_every_action_record() {
    assert_eq!(check_action_presence_v2(true, true, true, true).unwrap(), true);
    assert_eq!(check_action_presence_v2(false, false, false, false).unwrap(), false);
    assert_eq!(check_action_presence_v2(true, true, false, true).unwrap_err().code, ErrorCode::InternalInvariant);
    assert_eq!(check_action_presence_v2(false, false, false, true).unwrap_err().code, ErrorCode::InternalInvariant);
    assert_eq!(check_action_presence_v1(true, true).unwrap(), true);
    assert_eq!(check_action_presence_v1(false, false).unwrap(), false);
    assert_eq!(check_action_presence_v1(true, false).unwrap_err().code, ErrorCode::InternalInvariant);
    assert_eq!(check_action_presence_v1(false, true).unwrap_err().code, ErrorCode::InternalInvariant);
}

#[test]
fn provider_views_must_answer_the_replayed_request() {
    let view = EvaluatedView { request_digest: DigestValue(4), observed_revision: Revision(9), accepted: true };
    assert!(check_evaluated_view(&view, DigestValue(4), Revision(9)).is_ok());
    assert!(check_evaluated_view(&view, DigestValue(5), Revision(9)).is_err());
    assert!(check_evaluated_view(&view, DigestValue(4), Revision(8)).is_err());
    let refused = EvaluatedView { accepted: false, ..view };
    assert_eq!(check_evaluated_view(&refused, DigestValue(4), Revision(9)).unwrap_err().code, ErrorCode::InternalInvariant);
}

fn results() -> ReplayedResults {
    ReplayedResults {
        command_digest: DigestValue(1),
        artifacts: vec![DigestValue(2), DigestValue(3)],
        command_preflight: DigestValue(10),
        dispatch_eligibility: Some(DigestValue(11)),
        affected_jobs: None,
        output: vec![4, 5],
        action_outcome: Some(ActionProductOutcome {
            selected_effect: Some(DigestValue(6)),
            mutation_digest: DigestValue(7),
            relevant_after: None,
        }),
    }
}

#[test]
fn replay_needs_every_recomputed_result_to_be_the_recorded_one() {
    assert!(check_replayed_results(&results(), &results()).is_ok());
    let mut command = results();
    command.command_digest = DigestValue(9);
    assert_eq!(check_replayed_results(&results(), &command).unwrap_err().code, ErrorCode::InternalInvariant);
    let mut artifacts = results();
    artifacts.artifacts.pop();
    assert!(check_replayed_results(&results(), &artifacts).is_err());
    let mut output = results();
    output.output[1] = 6;
    assert!(check_replayed_results(&results(), &output).is_err());
    let mut outcome = results();
    outcome.action_outcome = None;
    assert!(check_replayed_results(&results(), &outcome).is_err());
    let mut preflight = results();
    preflight.command_preflight = DigestValue(12);
    assert!(check_replayed_results(&results(), &preflight).is_err());
    let mut eligibility = results();
    eligibility.dispatch_eligibility = None;
    assert!(check_replayed_results(&results(), &eligibility).is_err());
    let mut jobs = results();
    jobs.affected_jobs = Some(DigestValue(13));
    assert!(check_replayed_results(&results(), &jobs).is_err());
}

#[test]
fn a_privileged_replay_needs_the_authority_to_name_its_action() {
    assert!(check_privileged_authority_v1(Some((ActionClass(1), AdmissionId(2))), ActionClass(1), AdmissionId(2)).is_ok());
    assert_eq!(
        check_privileged_authority_v1(Some((ActionClass(1), AdmissionId(3))), ActionClass(1), AdmissionId(2)).unwrap_err().code,
        ErrorCode::InternalInvariant
    );
    assert!(check_privileged_authority_v1(Some((ActionClass(4), AdmissionId(2))), ActionClass(1), AdmissionId(2)).is_err());
    assert!(check_privileged_authority_v1(None, ActionClass(1), AdmissionId(2)).is_err());
    assert!(check_privileged_authority_v2(Some((ActionClass(1), DigestValue(9))), ActionClass(1), DigestValue(9)).is_ok());
    assert!(check_privileged_authority_v2(Some((ActionClass(1), DigestValue(8))), ActionClass(1), DigestValue(9)).is_err());
    assert!(check_privileged_authority_v2(None, ActionClass(1), DigestValue(9)).is_err());
}

#[test]
fn a_semantic_change_needs_its_expected_effect() {
    let plain = action_product_outcome(Some(DigestValue(6)), false, None, DigestValue(7), DigestValue(8)).unwrap();
    assert_eq!(plain, ActionProductOutcome { selected_effect: Some(DigestValue(6)), mutation_digest: DigestValue(7), relevant_after: None });
    let expected = ExpectedEffect { mutation_digest: DigestValue(7), relevant_after: DigestValue(8) };
    let semantic = action_product_outcome(Some(DigestValue(6)), true, Some(expected), DigestValue(7), DigestValue(8)).unwrap();
    assert_eq!(semantic.relevant_after, Some(DigestValue(8)));
    assert_eq!(
        action_product_outcome(Some(DigestValue(6)), true, Some(expected), DigestValue(70), DigestValue(8)).unwrap_err().code,
        ErrorCode::InternalInvariant
    );
    assert!(action_product_outcome(Some(DigestValue(6)), true, Some(expected), DigestValue(7), DigestValue(80)).is_err());
    assert!(action_product_outcome(Some(DigestValue(6)), true, None, DigestValue(7), DigestValue(8)).is_err());
}

#[test]
fn an_unsupported_schema_names_its_family_and_versions() {
    let e = select_logical_event_schema(3).err().unwrap();
    assert_eq!(e.code, ErrorCode::UnsupportedEpoch);
    assert_eq!(
        e.detail,
        ErrorDetail::UnsupportedEpoch { family: EpochFamily::LogicalEvent, requested: 3, supported: vec![1, 2] }
    );
    assert_eq!(select_logical_event_schema(1).ok(), Some(LogicalEventSchema::Schema1));
}
