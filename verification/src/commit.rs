//! Transaction binding, commit receipts and the checks that decide whether a
//! logical event may be replayed against a store state.
use vstd::prelude::*;

use crate::change::PreparedRecordMutation;
use crate::error::{EpochFamily, ErrorCode, ErrorDetail, ZapError};
use crate::identity::{StoreEpoch, StoreIdentity};
use crate::ids::{same_ids, ActionClass, AdmissionId, CommandId, DigestValue, EventId, Revision, TransactionId};
use crate::names::IndexFamily;

verus! {

/// The first logical event schema.
pub const LOGICAL_EVENT_SCHEMA_1: u16 = 1;

/// The current logical event schema.
pub const LOGICAL_EVENT_SCHEMA_2: u16 = 2;

/// A store-generated opaque nonce; it is never a wire value.
pub struct TransactionNonce {
    bytes: [u8; 16],
}

impl View for TransactionNonce {
    type V = Seq<u8>;

    closed spec fn view(&self) -> Seq<u8> {
        self.bytes@
    }
}

impl Clone for TransactionNonce {
    fn clone(&self) -> (r: TransactionNonce)
        ensures
            r@ == self@,
    {
        TransactionNonce { bytes: self.bytes }
    }
}

impl TransactionNonce {
    /// Wraps the sixteen bytes the store generated.
    pub fn from_store_bytes(bytes: [u8; 16]) -> (r: TransactionNonce)
        ensures
            r@ == bytes@,
    {
        TransactionNonce { bytes }
    }
}

/// Permission to enter the exact service store's write transaction.
pub struct TransactionPermit {
    identity: StoreIdentity,
}

/// The exact write transaction and pre-state observed by a backend.
pub struct TransactionBinding {
    identity: StoreIdentity,
    head: Revision,
    nonce: TransactionNonce,
}

impl TransactionPermit {
    /// A permit for the store with this identity.
    pub fn new(identity: StoreIdentity) -> (r: TransactionPermit)
        ensures
            r.permitted() == identity,
    {
        TransactionPermit { identity }
    }

    /// The identity this permit admits.
    pub closed spec fn permitted(&self) -> StoreIdentity {
        self.identity
    }

    /// Binds a transaction of the permitted store; any other identity is refused.
    pub fn bind(&self, identity: StoreIdentity, head: Revision, nonce: TransactionNonce) -> (r: Result<TransactionBinding, ZapError>)
        ensures
            r is Ok <==> identity == self.permitted(),
            r matches Ok(b) ==> b.bound_identity() == identity && b.bound_head() == head && b.bound_nonce() == nonce@,
            r matches Err(e) ==> e.code == ErrorCode::Conflict,
    {
        if !identity.same(&self.identity) {
            return Err(ZapError::new(ErrorCode::Conflict));
        }
        Ok(TransactionBinding { identity, head, nonce })
    }
}

impl TransactionBinding {
    pub closed spec fn bound_identity(&self) -> StoreIdentity {
        self.identity
    }

    pub closed spec fn bound_head(&self) -> Revision {
        self.head
    }

    pub closed spec fn bound_nonce(&self) -> Seq<u8> {
        self.nonce@
    }

    /// The store the transaction was opened on.
    pub fn identity(&self) -> (r: &StoreIdentity)
        ensures
            *r == self.bound_identity(),
    {
        &self.identity
    }

    /// The head revision observed when the transaction was opened.
    pub fn head(&self) -> (r: Revision)
        ensures
            r == self.bound_head(),
    {
        self.head
    }
}

/// Canonical output bytes of an applied command.
pub struct CanonicalOutput {
    bytes: Vec<u8>,
}

impl View for CanonicalOutput {
    type V = Seq<u8>;

    closed spec fn view(&self) -> Seq<u8> {
        self.bytes@
    }
}

impl Clone for CanonicalOutput {
    fn clone(&self) -> (r: CanonicalOutput)
        ensures
            r@ == self@,
    {
        CanonicalOutput { bytes: self.bytes.clone() }
    }
}

impl CanonicalOutput {
    pub fn new(bytes: Vec<u8>) -> (r: CanonicalOutput)
        ensures
            r@ == bytes@,
    {
        CanonicalOutput { bytes }
    }

    pub fn as_bytes(&self) -> (r: &[u8])
        ensures
            r@ == self@,
    {
        self.bytes.as_slice()
    }
}

/// The successful commit path that produced a receipt.
#[derive(Clone, Copy, Debug, PartialEq, Eq, Structural)]
pub enum CommitDisposition {
    Committed,
    ExactRetry,
    ReconciledCommitted,
}

/// The fields of a receipt before it is checked.
pub struct CommitReceiptParts {
    pub store: StoreIdentity,
    pub command_id: CommandId,
    pub event_id: EventId,
    pub transaction_id: TransactionId,
    pub revision: Revision,
    pub event_digest: DigestValue,
    pub output: CanonicalOutput,
    pub disposition: CommitDisposition,
}

/// What a receipt states, as plain values.
pub struct ReceiptView {
    pub store: StoreIdentity,
    pub command_id: CommandId,
    pub event_id: EventId,
    pub transaction_id: TransactionId,
    pub revision: Revision,
    pub event_digest: DigestValue,
    pub output: Seq<u8>,
    pub disposition: CommitDisposition,
}

/// A checked commit result: only stores of the current epoch issue receipts.
pub struct CommitReceipt {
    store: StoreIdentity,
    command_id: CommandId,
    event_id: EventId,
    transaction_id: TransactionId,
    revision: Revision,
    event_digest: DigestValue,
    output: CanonicalOutput,
    disposition: CommitDisposition,
}

impl View for CommitReceipt {
    type V = ReceiptView;

    closed spec fn view(&self) -> ReceiptView {
        ReceiptView {
            store: self.store,
            command_id: self.command_id,
            event_id: self.event_id,
            transaction_id: self.transaction_id,
            revision: self.revision,
            event_digest: self.event_digest,
            output: self.output@,
            disposition: self.disposition,
        }
    }
}

impl Clone for CommitReceipt {
    fn clone(&self) -> (r: CommitReceipt)
        ensures
            r@ == self@,
    {
        CommitReceipt {
            store: self.store,
            command_id: self.command_id,
            event_id: self.event_id,
            transaction_id: self.transaction_id,
            revision: self.revision,
            event_digest: self.event_digest,
            output: self.output.clone(),
            disposition: self.disposition,
        }
    }
}

/// The view a receipt built from these parts has.
pub open spec fn parts_view(parts: CommitReceiptParts) -> ReceiptView {
    ReceiptView {
        store: parts.store,
        command_id: parts.command_id,
        event_id: parts.event_id,
        transaction_id: parts.transaction_id,
        revision: parts.revision,
        event_digest: parts.event_digest,
        output: parts.output@,
        disposition: parts.disposition,
    }
}

impl CommitReceipt {
    /// Builds a receipt; a store of an earlier epoch cannot issue one.
    pub fn from_validated_parts(parts: CommitReceiptParts) -> (r: Result<CommitReceipt, ZapError>)
        ensures
            r is Ok <==> parts.store.store_epoch == StoreEpoch::Zap2,
            r matches Ok(receipt) ==> receipt@ == parts_view(parts),
            r matches Err(e) ==> e.code == ErrorCode::Conflict,
    {
        match parts.store.store_epoch {
            StoreEpoch::Zap2 => {},
            StoreEpoch::Zap1 => {
                return Err(ZapError::new(ErrorCode::Conflict));
            },
        }
        Ok(CommitReceipt {
            store: parts.store,
            command_id: parts.command_id,
            event_id: parts.event_id,
            transaction_id: parts.transaction_id,
            revision: parts.revision,
            event_digest: parts.event_digest,
            output: parts.output,
            disposition: parts.disposition,
        })
    }

    pub fn store(&self) -> (r: &StoreIdentity)
        ensures
            *r == self@.store,
    {
        &self.store
    }

    pub fn command_id(&self) -> (r: &CommandId)
        ensures
            *r == self@.command_id,
    {
        &self.command_id
    }

    pub fn event_id(&self) -> (r: &EventId)
        ensures
            *r == self@.event_id,
    {
        &self.event_id
    }

    pub fn transaction_id(&self) -> (r: &TransactionId)
        ensures
            *r == self@.transaction_id,
    {
        &self.transaction_id
    }

    pub fn revision(&self) -> (r: Revision)
        ensures
            r == self@.revision,
    {
        self.revision
    }

    pub fn event_digest(&self) -> (r: DigestValue)
        ensures
            r == self@.event_digest,
    {
        self.event_digest
    }

    pub fn output(&self) -> (r: &CanonicalOutput)
        ensures
            r@ == self@.output,
    {
        &self.output
    }

    pub fn disposition(&self) -> (r: CommitDisposition)
        ensures
            r == self@.disposition,
    {
        self.disposition
    }

    /// The same receipt, reported as committed by reconciliation.
    pub fn into_reconciled(self) -> (r: CommitReceipt)
        ensures
            r@ == (ReceiptView { disposition: CommitDisposition::ReconciledCommitted, ..self@ }),
    {
        let mut receipt = self;
        receipt.disposition = CommitDisposition::ReconciledCommitted;
        receipt
    }

    /// The same receipt, reported as an exact retry of a committed command.
    pub fn into_exact_retry(self) -> (r: CommitReceipt)
        ensures
            r@ == (ReceiptView { disposition: CommitDisposition::ExactRetry, ..self@ }),
    {
        let mut receipt = self;
        receipt.disposition = CommitDisposition::ExactRetry;
        receipt
    }
}

/// The reconciliation status for one logical command.
pub enum CommitStatus {
    Committed(CommitReceipt),
    NotCommitted { command_id: CommandId },
    Unknown { command_id: CommandId },
}

/// One index row prepared for a replayed or committed transition.
pub struct PreparedIndexRow {
    pub family: IndexFamily,
    pub key: Vec<u8>,
    pub value: Vec<u8>,
}

/// The mutations and index rows that replaying one event reproduces.
pub struct ReplayedTransition {
    mutations: Vec<PreparedRecordMutation>,
    index_rows: Vec<PreparedIndexRow>,
}

impl ReplayedTransition {
    pub fn new(mutations: Vec<PreparedRecordMutation>, index_rows: Vec<PreparedIndexRow>) -> (r: ReplayedTransition)
        ensures
            r.spec_mutations() == mutations@,
            r.spec_index_rows() == index_rows@,
    {
        ReplayedTransition { mutations, index_rows }
    }

    pub closed spec fn spec_mutations(&self) -> Seq<PreparedRecordMutation> {
        self.mutations@
    }

    pub closed spec fn spec_index_rows(&self) -> Seq<PreparedIndexRow> {
        self.index_rows@
    }

    pub fn mutations(&self) -> (r: &[PreparedRecordMutation])
        ensures
            r@ == self.spec_mutations(),
    {
        self.mutations.as_slice()
    }

    pub fn index_rows(&self) -> (r: &[PreparedIndexRow])
        ensures
            r@ == self.spec_index_rows(),
    {
        self.index_rows.as_slice()
    }
}

/// The two logical event schemas a store can replay.
#[derive(Clone, Copy, Debug, PartialEq, Eq, Structural)]
pub enum LogicalEventSchema {
    Schema1,
    Schema2,
}

/// The refusal of a logical event schema this build does not read: an
/// unsupported epoch of the logical event family that names the version
/// asked for and the versions this build reads.
pub open spec fn unsupported_schema(e: ZapError, version: u16) -> bool {
    &&& e.code == ErrorCode::UnsupportedEpoch
    &&& e.detail matches ErrorDetail::UnsupportedEpoch { family, requested, supported }
    &&& family == EpochFamily::LogicalEvent
    &&& requested == version
    &&& supported@ == seq![LOGICAL_EVENT_SCHEMA_1 as u32, LOGICAL_EVENT_SCHEMA_2 as u32]
}

/// Selects the decoder for a stored event's schema version; any other
/// version is an unsupported epoch of the logical event family, which names
/// the version asked for and the versions this build reads.
pub fn select_logical_event_schema(version: u16) -> (r: Result<LogicalEventSchema, ZapError>)
    ensures
        version == LOGICAL_EVENT_SCHEMA_1 ==> r == Ok::<LogicalEventSchema, ZapError>(LogicalEventSchema::Schema1),
        version == LOGICAL_EVENT_SCHEMA_2 ==> r == Ok::<LogicalEventSchema, ZapError>(LogicalEventSchema::Schema2),
        version != LOGICAL_EVENT_SCHEMA_1 && version != LOGICAL_EVENT_SCHEMA_2 ==> (r matches Err(e) && unsupported_schema(e, version)),
{
    if version == LOGICAL_EVENT_SCHEMA_1 {
        Ok(LogicalEventSchema::Schema1)
    } else if version == LOGICAL_EVENT_SCHEMA_2 {
        Ok(LogicalEventSchema::Schema2)
    } else {
        let supported: Vec<u32> = vec![LOGICAL_EVENT_SCHEMA_1 as u32, LOGICAL_EVENT_SCHEMA_2 as u32];
        Err(ZapError {
            code: ErrorCode::UnsupportedEpoch,
            detail: ErrorDetail::UnsupportedEpoch { family: EpochFamily::LogicalEvent, requested: version as u32, supported },
        })
    }
}

/// The header of a stored event, as far as replay checks it against the state.
#[derive(Clone, Copy, Debug, PartialEq, Eq, Structural)]
pub struct EventHeaderFacts {
    pub schema_version: u16,
    pub store: StoreIdentity,
    pub revision: Revision,
    pub previous_revision: Revision,
    pub expected_revision: Revision,
}

/// An event continues a state exactly when it has the expected schema, names
/// the state's store, expects and follows the state's revision, and is the
/// very next revision.
pub open spec fn event_continues(h: EventHeaderFacts, schema: u16, store: StoreIdentity, revision: Revision) -> bool {
    &&& h.schema_version == schema
    &&& h.store == store
    &&& h.previous_revision == revision
    &&& h.expected_revision == revision
    &&& h.revision.0 == revision.0 + 1
}

/// Checks that an event is the next transition of the state it is replayed on.
/// A state at the last revision has no next one: that is an invalid value.
pub fn check_replay_header(h: &EventHeaderFacts, schema: u16, store: &StoreIdentity, revision: Revision) -> (r: Result<(), ZapError>)
    ensures
        revision.0 == u64::MAX ==> r == Err::<(), ZapError>(ZapError { code: ErrorCode::InvalidValue, detail: ErrorDetail::Empty }),
        revision.0 < u64::MAX ==> (r is Ok <==> event_continues(*h, schema, *store, revision)),
        revision.0 < u64::MAX && r is Err ==> r == Err::<(), ZapError>(ZapError { code: ErrorCode::InternalInvariant, detail: ErrorDetail::Empty }),
{
    if revision.0 == u64::MAX {
        return Err(ZapError::new(ErrorCode::InvalidValue));
    }
    let next = revision.0 + 1;
    if h.schema_version != schema || !h.store.same(store) || h.previous_revision.0 != revision.0
        || h.expected_revision.0 != revision.0 || h.revision.0 != next
    {
        return Err(ZapError::new(ErrorCode::InternalInvariant));
    }
    Ok(())
}

/// What a cell descriptor requires of the events it records.
#[derive(Clone, Copy, Debug, PartialEq, Eq, Structural)]
pub struct DescriptorRequirements {
    pub reducer_epoch: u32,
    pub requires_completion: bool,
    pub requires_dispatch_eligibility: bool,
    pub requires_affected_jobs: bool,
    pub requires_packet_resolution: bool,
}

/// What a stored event carries that its descriptor constrains.
#[derive(Clone, Copy, Debug, PartialEq, Eq, Structural)]
pub struct RecordedShape {
    pub reducer_epoch: u32,
    pub has_completion: bool,
    pub has_dispatch_eligibility: bool,
    pub has_affected_jobs: bool,
    pub has_packet_resolution: bool,
}

/// A first-schema event carries a completion view, a dispatch-eligibility view
/// and an affected-job view exactly when its descriptor requires them.
pub open spec fn schema1_shape_matches(d: DescriptorRequirements, e: RecordedShape) -> bool {
    &&& d.reducer_epoch == e.reducer_epoch
    &&& d.requires_completion == e.has_completion
    &&& d.requires_dispatch_eligibility == e.has_dispatch_eligibility
    &&& d.requires_affected_jobs == e.has_affected_jobs
}

/// A current-schema event carries a completion view, an affected-job view and a
/// packet resolution exactly when its descriptor requires them.
pub open spec fn schema2_shape_matches(d: DescriptorRequirements, e: RecordedShape) -> bool {
    &&& d.reducer_epoch == e.reducer_epoch
    &&& d.requires_completion == e.has_completion
    &&& d.requires_affected_jobs == e.has_affected_jobs
    &&& d.requires_packet_resolution == e.has_packet_resolution
}

/// Checks a recorded event's shape against its cell descriptor.
pub fn check_recorded_shape(schema: LogicalEventSchema, d: &DescriptorRequirements, e: &RecordedShape) -> (r: Result<(), ZapError>)
    ensures
        r is Ok <==> (match schema {
            LogicalEventSchema::Schema1 => schema1_shape_matches(*d, *e),
            LogicalEventSchema::Schema2 => schema2_shape_matches(*d, *e),
        }),
        r matches Err(err) ==> err.code == ErrorCode::InternalInvariant,
{
    let matches = match schema {
        LogicalEventSchema::Schema1 => d.reducer_epoch == e.reducer_epoch && d.requires_completion == e.has_completion
            && d.requires_dispatch_eligibility == e.has_dispatch_eligibility && d.requires_affected_jobs == e.has_affected_jobs,
        LogicalEventSchema::Schema2 => d.reducer_epoch == e.reducer_epoch && d.requires_completion == e.has_completion
            && d.requires_affected_jobs == e.has_affected_jobs && d.requires_packet_resolution == e.has_packet_resolution,
    };
    if matches {
        Ok(())
    } else {
        Err(ZapError::new(ErrorCode::InternalInvariant))
    }
}

/// How a command header binds the basis it was decided on.
#[derive(Clone, Copy, Debug, PartialEq, Eq, Structural)]
pub enum BasisBinding {
    Exact(DigestValue),
    NotApplicable,
}

/// Replay needs an exact basis digest exactly when the cell asks for a basis;
/// the digest must then equal the one recomputed from the state.
pub open spec fn basis_binding_accepts(cell_requests_basis: bool, binding: BasisBinding, recomputed: DigestValue) -> bool {
    match binding {
        BasisBinding::Exact(expected) => cell_requests_basis && expected == recomputed,
        BasisBinding::NotApplicable => !cell_requests_basis,
    }
}

/// Checks a header's basis binding against the cell's request and the digest
/// recomputed from the state.
pub fn check_basis_binding(cell_requests_basis: bool, binding: BasisBinding, recomputed: DigestValue) -> (r: Result<(), ZapError>)
    ensures
        r is Ok <==> basis_binding_accepts(cell_requests_basis, binding, recomputed),
        r matches Err(e) ==> e.code == ErrorCode::InternalInvariant,
{
    let accepted = match binding {
        BasisBinding::Exact(expected) => cell_requests_basis && expected.0 == recomputed.0,
        BasisBinding::NotApplicable => !cell_requests_basis,
    };
    if accepted {
        Ok(())
    } else {
        Err(ZapError::new(ErrorCode::InternalInvariant))
    }
}

/// Which cell families a service registers and which providers it was given.
#[derive(Clone, Copy, Debug, PartialEq, Eq, Structural)]
pub struct ProviderWiring {
    pub privileged_routes: bool,
    pub effect_bundles: bool,
    pub affected_scope_cells: bool,
    pub safe_job_cells: bool,
    pub packet_resolution_cells: bool,
    pub action_impact: bool,
    pub action_admission: bool,
    pub basis: bool,
    pub affected_scope: bool,
    pub affected_jobs: bool,
    pub packet_resolution: bool,
    pub dispatch_eligibility: bool,
}

/// Every registered cell family has the providers it needs: privileged routes
/// need impact, admission, basis, affected-scope and affected-job providers;
/// effect bundles need a basis provider; affected-scope or safe-job cells need
/// affected-scope and affected-job providers; packet resolution needs packet
/// resolution and dispatch eligibility providers.
pub open spec fn wiring_complete(w: ProviderWiring) -> bool {
    &&& w.privileged_routes ==> w.action_impact && w.action_admission && w.basis && w.affected_scope && w.affected_jobs
    &&& w.effect_bundles ==> w.basis
    &&& (w.affected_scope_cells || w.safe_job_cells) ==> w.affected_scope && w.affected_jobs
    &&& w.packet_resolution_cells ==> w.packet_resolution && w.dispatch_eligibility
}

/// Refuses to build a service whose cells lack a provider they need.
pub fn check_provider_wiring(w: &ProviderWiring) -> (r: Result<(), ZapError>)
    ensures
        r is Ok <==> wiring_complete(*w),
        r matches Err(e) ==> e.code == ErrorCode::Conflict,
{
    if w.privileged_routes && (!w.action_impact || !w.action_admission || !w.basis || !w.affected_scope || !w.affected_jobs)
        || w.effect_bundles && !w.basis
        || (w.affected_scope_cells || w.safe_job_cells) && (!w.affected_scope || !w.affected_jobs)
        || w.packet_resolution_cells && (!w.packet_resolution || !w.dispatch_eligibility)
    {
        return Err(ZapError::new(ErrorCode::Conflict));
    }
    Ok(())
}


/// Whether replay admits a privileged action, from the route and which
/// action facts a second-schema event recorded: a privileged route needs its
/// admission, preflight and outcome together, and any other route none of
/// them.
pub open spec fn action_presence_v2(privileged: bool, admission: bool, preflight: bool, outcome: bool) -> Option<bool> {
    if privileged && admission && preflight && outcome {
        Some(true)
    } else if !privileged && !admission && !preflight && !outcome {
        Some(false)
    } else {
        None
    }
}

/// Decides whether a second-schema event replays a privileged action; a
/// partial or misplaced record is an internal invariant.
pub fn check_action_presence_v2(privileged: bool, admission: bool, preflight: bool, outcome: bool) -> (r: Result<bool, ZapError>)
    ensures
        match action_presence_v2(privileged, admission, preflight, outcome) {
            Some(b) => r == Ok::<bool, ZapError>(b),
            None => r == Err::<bool, ZapError>(ZapError { code: ErrorCode::InternalInvariant, detail: ErrorDetail::Empty }),
        },
{
    if privileged && admission && preflight && outcome {
        Ok(true)
    } else if privileged || admission || preflight || outcome {
        Err(ZapError::new(ErrorCode::InternalInvariant))
    } else {
        Ok(false)
    }
}

/// Decides whether a first-schema event replays a privileged action: a
/// privileged route needs its admission, and any other route none.
pub fn check_action_presence_v1(privileged: bool, admission: bool) -> (r: Result<bool, ZapError>)
    ensures
        privileged == admission ==> r == Ok::<bool, ZapError>(privileged),
        privileged != admission ==> r == Err::<bool, ZapError>(ZapError { code: ErrorCode::InternalInvariant, detail: ErrorDetail::Empty }),
{
    if privileged != admission {
        return Err(ZapError::new(ErrorCode::InternalInvariant));
    }
    Ok(privileged)
}

/// A provider's evaluation as replay reads it: the request it answers, the
/// revision it observed, and whether it accepted (eligible dispatch, or a
/// complete affected-job set).
#[derive(Clone, Copy, Debug, PartialEq, Eq, Structural)]
pub struct EvaluatedView {
    pub request_digest: DigestValue,
    pub observed_revision: Revision,
    pub accepted: bool,
}

/// Checks that a provider answered exactly the request, at the replayed
/// revision, and accepted it.
pub fn check_evaluated_view(view: &EvaluatedView, request_digest: DigestValue, revision: Revision) -> (r: Result<(), ZapError>)
    ensures
        r is Ok <==> (view.request_digest == request_digest && view.observed_revision == revision && view.accepted),
        r matches Err(e) ==> e.code == ErrorCode::InternalInvariant,
{
    if view.request_digest.0 != request_digest.0 || view.observed_revision.0 != revision.0 || !view.accepted {
        return Err(ZapError::new(ErrorCode::InternalInvariant));
    }
    Ok(())
}

/// What a privileged action's product left, as a logical event records it:
/// the selected effect bundle, the digest of the product's mutations and,
/// for a semantic change, the relevant basis after it.
#[derive(Clone, Copy, Debug, PartialEq, Eq, Structural)]
pub struct ActionProductOutcome {
    pub selected_effect: Option<DigestValue>,
    pub mutation_digest: DigestValue,
    pub relevant_after: Option<DigestValue>,
}

/// The effect a selected bundle expects of a semantic change: the digest of
/// its mutations and the relevant basis after it.
#[derive(Clone, Copy, Debug, PartialEq, Eq, Structural)]
pub struct ExpectedEffect {
    pub mutation_digest: DigestValue,
    pub relevant_after: DigestValue,
}

/// The outcome replay rebuilds for a privileged action. A semantic change
/// needs the selected bundle's expected effect, whose mutation digest must be
/// the product's and whose relevant basis after must be the one recomputed;
/// any other impact records no basis after.
pub fn action_product_outcome(
    selected_effect: Option<DigestValue>,
    semantic_change: bool,
    expected: Option<ExpectedEffect>,
    product_digest: DigestValue,
    relevant_after: DigestValue,
) -> (r: Result<ActionProductOutcome, ZapError>)
    ensures
        !semantic_change ==> r == Ok::<ActionProductOutcome, ZapError>(
            ActionProductOutcome { selected_effect, mutation_digest: product_digest, relevant_after: None },
        ),
        semantic_change ==> (r is Ok <==> (expected matches Some(x) && x.mutation_digest == product_digest
            && x.relevant_after == relevant_after)),
        semantic_change && r is Ok ==> r == Ok::<ActionProductOutcome, ZapError>(
            ActionProductOutcome { selected_effect, mutation_digest: product_digest, relevant_after: Some(relevant_after) },
        ),
        r matches Err(e) ==> e.code == ErrorCode::InternalInvariant,
{
    if !semantic_change {
        return Ok(ActionProductOutcome { selected_effect, mutation_digest: product_digest, relevant_after: None });
    }
    match expected {
        Some(x) => {
            if x.mutation_digest.0 != product_digest.0 || x.relevant_after.0 != relevant_after.0 {
                return Err(ZapError::new(ErrorCode::InternalInvariant));
            }
            Ok(ActionProductOutcome { selected_effect, mutation_digest: product_digest, relevant_after: Some(relevant_after) })
        },
        None => Err(ZapError::new(ErrorCode::InternalInvariant)),
    }
}

/// The results of a logical event that replay recomputes and compares with
/// what the event recorded: the command's digest, the artifact digests, the
/// command preflight record, the dispatch-eligibility and affected-job
/// views, the output bytes and the action outcome. A record or view is held
/// by the digest of its canonical encoding.
pub struct ReplayedResults {
    pub command_digest: DigestValue,
    pub artifacts: Vec<DigestValue>,
    pub command_preflight: DigestValue,
    pub dispatch_eligibility: Option<DigestValue>,
    pub affected_jobs: Option<DigestValue>,
    pub output: Vec<u8>,
    pub action_outcome: Option<ActionProductOutcome>,
}

impl ReplayedResults {
    /// The two agree in every result.
    pub open spec fn agrees_with(&self, other: &ReplayedResults) -> bool {
        &&& self.command_digest == other.command_digest
        &&& self.artifacts@ == other.artifacts@
        &&& self.command_preflight == other.command_preflight
        &&& self.dispatch_eligibility == other.dispatch_eligibility
        &&& self.affected_jobs == other.affected_jobs
        &&& self.output@ == other.output@
        &&& self.action_outcome == other.action_outcome
    }
}

fn same_bytes(a: &[u8], b: &[u8]) -> (r: bool)
    ensures
        r == (a@ == b@),
{
    if a.len() != b.len() {
        return false;
    }
    let mut i: usize = 0;
    while i < a.len()
        invariant
            i <= a@.len(),
            a@.len() == b@.len(),
            forall|k: int| 0 <= k < i ==> a@[k] == b@[k],
        decreases a@.len() - i,
    {
        if a[i] != b[i] {
            return false;
        }
        i += 1;
    }
    assert(a@ =~= b@);
    true
}

/// Replay stands only where every recomputed result is the recorded one; any
/// difference is an internal invariant.
pub fn check_replayed_results(recorded: &ReplayedResults, recomputed: &ReplayedResults) -> (r: Result<(), ZapError>)
    ensures
        r is Ok <==> recorded.agrees_with(recomputed),
        r matches Err(e) ==> e.code == ErrorCode::InternalInvariant,
{
    if recorded.command_digest.0 != recomputed.command_digest.0
        || !same_ids(recorded.artifacts.as_slice(), recomputed.artifacts.as_slice())
        || recorded.command_preflight.0 != recomputed.command_preflight.0
        || recorded.dispatch_eligibility != recomputed.dispatch_eligibility
        || recorded.affected_jobs != recomputed.affected_jobs
        || !same_bytes(recorded.output.as_slice(), recomputed.output.as_slice())
        || recorded.action_outcome != recomputed.action_outcome
    {
        return Err(ZapError::new(ErrorCode::InternalInvariant));
    }
    Ok(())
}

/// Replay of a first-schema privileged action stands only where the event's
/// authority names exactly the routed action and the admission replay
/// applied; any other authority is an internal invariant.
pub fn check_privileged_authority_v1(named: Option<(ActionClass, AdmissionId)>, action: ActionClass, admission: AdmissionId)
    -> (r: Result<(), ZapError>)
    ensures
        r is Ok <==> named == Some((action, admission)),
        r matches Err(e) ==> e.code == ErrorCode::InternalInvariant,
{
    match named {
        Some((a, id)) => if a.0 == action.0 && id.0 == admission.0 {
            Ok(())
        } else {
            Err(ZapError::new(ErrorCode::InternalInvariant))
        },
        None => Err(ZapError::new(ErrorCode::InternalInvariant)),
    }
}

/// Replay of a second-schema privileged action stands only where the event's
/// authority names exactly the routed action and the basis the admission
/// observed (each basis held by the digest of its canonical encoding); any
/// other authority is an internal invariant.
pub fn check_privileged_authority_v2(named: Option<(ActionClass, DigestValue)>, action: ActionClass, basis: DigestValue)
    -> (r: Result<(), ZapError>)
    ensures
        r is Ok <==> named == Some((action, basis)),
        r matches Err(e) ==> e.code == ErrorCode::InternalInvariant,
{
    match named {
        Some((a, b)) => if a.0 == action.0 && b.0 == basis.0 {
            Ok(())
        } else {
            Err(ZapError::new(ErrorCode::InternalInvariant))
        },
        None => Err(ZapError::new(ErrorCode::InternalInvariant)),
    }
}

} // verus!
