//! Startup trust: controller epochs, credential scopes, the bindings a
//! service installs at construction, and the grants its handles issue for
//! exactly the command frames they are bound to.
use vstd::prelude::*;

use crate::authority::{ActorRef, AuthorizationRef, OperationRef, PrincipalRole};
use crate::error::{ErrorCode, ErrorDetail, ZapError};
use crate::ids::{ActionClass, BaseId, CampaignId, CommandId, ControlClass, CredentialId, DigestValue, EventId, EventKind, HarnessId, ObservationRef, OperationId, PrincipalId, StoreId};
use crate::identity::StoreIdentity;

verus! {

/// A positive controller fencing epoch.
#[derive(Clone, Copy, Debug, PartialEq, Eq, Ord, Structural)]
pub struct ControllerEpoch {
    value: u64,
}

impl ControllerEpoch {
    #[verifier::type_invariant]
    spec fn inv(self) -> bool {
        self.value > 0
    }

    /// The epoch's number.
    pub closed spec fn number(self) -> u64 {
        self.value
    }

    /// Epoch zero does not exist: it is refused as unauthorized.
    pub fn new(value: u64) -> (r: Result<ControllerEpoch, ZapError>)
        ensures
            r is Ok <==> value != 0,
            r matches Ok(e) ==> e.number() == value,
            r matches Err(e) ==> e.code == ErrorCode::Unauthorized,
    {
        if value == 0 {
            return Err(ZapError::new(ErrorCode::Unauthorized));
        }
        Ok(ControllerEpoch { value })
    }

    pub fn get(self) -> (r: u64)
        ensures
            r == self.number(),
            r > 0,
    {
        proof {
            use_type_invariant(&self);
        }
        self.value
    }
}

/// A borrowed secret that cannot be cloned, serialized or debug-printed.
pub struct SecretInput<'a> {
    value: &'a [u8],
}

impl<'a> View for SecretInput<'a> {
    type V = Seq<u8>;

    closed spec fn view(&self) -> Seq<u8> {
        self.value@
    }
}

impl<'a> SecretInput<'a> {
    pub fn new(value: &'a [u8]) -> (r: SecretInput<'a>)
        ensures
            r@ == value@,
    {
        SecretInput { value }
    }

    pub fn expose_to_verifier(&self) -> (r: &[u8])
        ensures
            r@ == self@,
    {
        self.value
    }
}

/// A verifier installed only through trusted startup configuration. An
/// exact verifier accepts only its own secret; `accepts` says which secrets
/// it accepts, and `verify` answers by it.
pub trait SecretVerifier {
    spec fn accepts(&self, secret: Seq<u8>) -> bool;

    fn verify(&self, secret: SecretInput<'_>) -> (r: bool)
        ensures
            r == self.accepts(secret@),
    ;
}

/// A verifier that accepts exactly one secret.
pub struct ExactSecretVerifier {
    secret: Vec<u8>,
}

impl ExactSecretVerifier {
    pub fn new(secret: &[u8]) -> (r: ExactSecretVerifier)
        ensures
            r.expected() == secret@,
    {
        let mut v: Vec<u8> = Vec::new();
        let mut k: usize = 0;
        while k < secret.len()
            invariant
                k <= secret@.len(),
                v@ == secret@.take(k as int),
            decreases secret@.len() - k,
        {
            v.push(secret[k]);
            assert(secret@.take(k as int + 1) =~= secret@.take(k as int).push(secret@[k as int]));
            k += 1;
        }
        assert(secret@.take(k as int) =~= secret@);
        ExactSecretVerifier { secret: v }
    }

    /// The one secret it accepts.
    pub closed spec fn expected(&self) -> Seq<u8> {
        self.secret@
    }
}

impl SecretVerifier for ExactSecretVerifier {
    open spec fn accepts(&self, secret: Seq<u8>) -> bool {
        secret == self.expected()
    }

    fn verify(&self, secret: SecretInput<'_>) -> (r: bool) {
        let given = secret.expose_to_verifier();
        if given.len() != self.secret.len() {
            return false;
        }
        let mut k: usize = 0;
        while k < given.len()
            invariant
                k <= given@.len(),
                given@ == secret@,
                given@.len() == self.secret@.len(),
                forall|m: int| 0 <= m < k ==> given@[m] == self.secret@[m],
            decreases given@.len() - k,
        {
            if given[k] != self.secret[k] {
                assert(given@[k as int] != self.secret@[k as int]);
                return false;
            }
            k += 1;
        }
        assert(given@ =~= self.secret@);
        true
    }
}

fn contains_action(v: &[ActionClass], a: ActionClass) -> (r: bool)
    ensures
        r == v@.contains(a),
{
    let mut k: usize = 0;
    while k < v.len()
        invariant
            k <= v.len(),
            forall|m: int| 0 <= m < k ==> v@[m] != a,
        decreases v.len() - k,
    {
        if v[k].0 == a.0 {
            assert(v@[k as int] == a);
            return true;
        }
        k += 1;
    }
    false
}

fn contains_control(v: &[ControlClass], c: ControlClass) -> (r: bool)
    ensures
        r == v@.contains(c),
{
    let mut k: usize = 0;
    while k < v.len()
        invariant
            k <= v.len(),
            forall|m: int| 0 <= m < k ==> v@[m] != c,
        decreases v.len() - k,
    {
        if v[k].0 == c.0 {
            assert(v@[k as int] == c);
            return true;
        }
        k += 1;
    }
    false
}

fn contains_event(v: &[EventKind], e: EventKind) -> (r: bool)
    ensures
        r == v@.contains(e),
{
    let mut k: usize = 0;
    while k < v.len()
        invariant
            k <= v.len(),
            forall|m: int| 0 <= m < k ==> v@[m] != e,
        decreases v.len() - k,
    {
        if v[k].0 == e.0 {
            assert(v@[k as int] == e);
            return true;
        }
        k += 1;
    }
    false
}

/// Exact coordinator startup scope; an empty action set is invalid.
pub struct CoordinatorScope {
    campaign: CampaignId,
    actions: Vec<ActionClass>,
    controller_epoch: ControllerEpoch,
}

/// What a startup scope grants, as plain values.
#[verifier::reject_recursive_types(T)]
pub ghost struct ScopeView<T> {
    pub campaign: CampaignId,
    pub granted: Set<T>,
    pub controller_epoch: ControllerEpoch,
}

impl View for CoordinatorScope {
    type V = ScopeView<ActionClass>;

    closed spec fn view(&self) -> ScopeView<ActionClass> {
        ScopeView { campaign: self.campaign, granted: self.actions@.to_set(), controller_epoch: self.controller_epoch }
    }
}

impl CoordinatorScope {
    #[verifier::type_invariant]
    spec fn inv(self) -> bool {
        self.actions@.len() > 0
    }

    /// A coordinator scope needs at least one action class.
    pub fn new(campaign: CampaignId, actions: Vec<ActionClass>, controller_epoch: ControllerEpoch) -> (r: Result<CoordinatorScope, ZapError>)
        ensures
            r is Ok <==> actions@.len() > 0,
            r matches Ok(s) ==> s@ == (ScopeView { campaign, granted: actions@.to_set(), controller_epoch }),
            r matches Err(e) ==> e.code == ErrorCode::Unauthorized,
    {
        if actions.len() == 0 {
            return Err(ZapError::new(ErrorCode::Unauthorized));
        }
        Ok(CoordinatorScope { campaign, actions, controller_epoch })
    }

    pub fn campaign_id(&self) -> (r: &CampaignId)
        ensures
            *r == self@.campaign,
    {
        &self.campaign
    }

    pub fn actions(&self) -> (r: &[ActionClass])
        ensures
            r@.to_set() == self@.granted,
            r@.len() > 0,
    {
        proof {
            use_type_invariant(self);
        }
        self.actions.as_slice()
    }

    pub fn controller_epoch(&self) -> (r: ControllerEpoch)
        ensures
            r == self@.controller_epoch,
    {
        self.controller_epoch
    }
}

/// Exact Owner startup scope; an empty control set is invalid.
pub struct OwnerScope {
    campaign: CampaignId,
    controls: Vec<ControlClass>,
    controller_epoch: ControllerEpoch,
}

impl View for OwnerScope {
    type V = ScopeView<ControlClass>;

    closed spec fn view(&self) -> ScopeView<ControlClass> {
        ScopeView { campaign: self.campaign, granted: self.controls@.to_set(), controller_epoch: self.controller_epoch }
    }
}

impl OwnerScope {
    #[verifier::type_invariant]
    spec fn inv(self) -> bool {
        self.controls@.len() > 0
    }

    /// An Owner scope needs at least one control class.
    pub fn new(campaign: CampaignId, controls: Vec<ControlClass>, controller_epoch: ControllerEpoch) -> (r: Result<OwnerScope, ZapError>)
        ensures
            r is Ok <==> controls@.len() > 0,
            r matches Ok(s) ==> s@ == (ScopeView { campaign, granted: controls@.to_set(), controller_epoch }),
            r matches Err(e) ==> e.code == ErrorCode::Unauthorized,
    {
        if controls.len() == 0 {
            return Err(ZapError::new(ErrorCode::Unauthorized));
        }
        Ok(OwnerScope { campaign, controls, controller_epoch })
    }

    pub fn campaign_id(&self) -> (r: &CampaignId)
        ensures
            *r == self@.campaign,
    {
        &self.campaign
    }

    pub fn controls(&self) -> (r: &[ControlClass])
        ensures
            r@.to_set() == self@.granted,
            r@.len() > 0,
    {
        proof {
            use_type_invariant(self);
        }
        self.controls.as_slice()
    }

    pub fn controller_epoch(&self) -> (r: ControllerEpoch)
        ensures
            r == self@.controller_epoch,
    {
        self.controller_epoch
    }
}

/// The header fields and digest of a canonical command frame.
#[derive(Clone, Copy, Debug, PartialEq, Eq, Structural)]
pub struct CommandFrame {
    pub store_id: StoreId,
    pub campaign_id: CampaignId,
    pub base_id: BaseId,
    pub kind: EventKind,
    pub event_id: EventId,
    pub command_id: CommandId,
    pub digest: DigestValue,
}

/// A frame is bound to a binding when it names the binding's store, campaign
/// and base, and its kind is one the binding allows.
pub open spec fn frame_bound(store: StoreId, campaign: CampaignId, base: BaseId, allowed: Seq<EventKind>, frame: CommandFrame) -> bool {
    &&& frame.store_id == store
    &&& frame.campaign_id == campaign
    &&& frame.base_id == base
    &&& allowed.contains(frame.kind)
}

/// Refuses a frame for another store, campaign or base, or of a kind the
/// binding does not allow.
pub fn validate_bound_frame(store: StoreId, campaign: CampaignId, base: BaseId, allowed: &[EventKind], frame: &CommandFrame) -> (r: Result<(), ZapError>)
    ensures
        r is Ok <==> frame_bound(store, campaign, base, allowed@, *frame),
        r matches Err(e) ==> e.code == ErrorCode::Unauthorized,
{
    if frame.store_id.0 != store.0 || frame.campaign_id.0 != campaign.0 || frame.base_id.0 != base.0
        || !contains_event(allowed, frame.kind)
    {
        return Err(ZapError::new(ErrorCode::Unauthorized));
    }
    Ok(())
}

/// A trusted host binding installed only at service construction.
pub struct TrustedHostBinding {
    pub principal_id: PrincipalId,
    pub harness_id: HarnessId,
    pub store_id: StoreId,
    pub campaign_id: CampaignId,
    pub base_id: BaseId,
    pub controller_epoch: ControllerEpoch,
    pub observation: ObservationRef,
    pub allowed_events: Vec<EventKind>,
}

/// Exact internal protocol authority installed only at service construction.
pub struct InternalProtocolBinding {
    pub principal_id: PrincipalId,
    pub store_id: StoreId,
    pub campaign_id: CampaignId,
    pub base_id: BaseId,
    pub controller_epoch: ControllerEpoch,
    pub allowed_events: Vec<EventKind>,
}

/// A data-proposal issuer installed only at service construction.
pub struct AgentDataBinding {
    pub principal_id: PrincipalId,
    pub store_id: StoreId,
    pub campaign_id: CampaignId,
    pub base_id: BaseId,
    pub allowed_events: Vec<EventKind>,
}

impl Clone for TrustedHostBinding {
    fn clone(&self) -> (r: TrustedHostBinding)
        ensures
            r.principal_id == self.principal_id && r.harness_id == self.harness_id && r.store_id == self.store_id
                && r.campaign_id == self.campaign_id && r.base_id == self.base_id
                && r.controller_epoch == self.controller_epoch && r.observation == self.observation
                && r.allowed_events@ == self.allowed_events@,
    {
        TrustedHostBinding {
            principal_id: self.principal_id,
            harness_id: self.harness_id,
            store_id: self.store_id,
            campaign_id: self.campaign_id,
            base_id: self.base_id,
            controller_epoch: self.controller_epoch,
            observation: self.observation,
            allowed_events: self.allowed_events.clone(),
        }
    }
}

impl Clone for InternalProtocolBinding {
    fn clone(&self) -> (r: InternalProtocolBinding)
        ensures
            r.principal_id == self.principal_id && r.store_id == self.store_id && r.campaign_id == self.campaign_id
                && r.base_id == self.base_id && r.controller_epoch == self.controller_epoch
                && r.allowed_events@ == self.allowed_events@,
    {
        InternalProtocolBinding {
            principal_id: self.principal_id,
            store_id: self.store_id,
            campaign_id: self.campaign_id,
            base_id: self.base_id,
            controller_epoch: self.controller_epoch,
            allowed_events: self.allowed_events.clone(),
        }
    }
}

impl Clone for AgentDataBinding {
    fn clone(&self) -> (r: AgentDataBinding)
        ensures
            r.principal_id == self.principal_id && r.store_id == self.store_id && r.campaign_id == self.campaign_id
                && r.base_id == self.base_id && r.allowed_events@ == self.allowed_events@,
    {
        AgentDataBinding {
            principal_id: self.principal_id,
            store_id: self.store_id,
            campaign_id: self.campaign_id,
            base_id: self.base_id,
            allowed_events: self.allowed_events.clone(),
        }
    }
}

/// Whether a binding is for exactly the store, campaign and base of an identity.
pub open spec fn binds_identity(store: StoreId, campaign: CampaignId, base: BaseId, identity: StoreIdentity) -> bool {
    store == identity.store_id && campaign == identity.campaign_id && base == identity.base_id
}

fn same_place(store: StoreId, campaign: CampaignId, base: BaseId, identity: &StoreIdentity) -> (r: bool)
    ensures
        r == binds_identity(store, campaign, base, *identity),
{
    store.0 == identity.store_id.0 && campaign.0 == identity.campaign_id.0 && base.0 == identity.base_id.0
}

impl TrustedHostBinding {
    pub fn matches_identity(&self, identity: &StoreIdentity) -> (r: bool)
        ensures
            r == binds_identity(self.store_id, self.campaign_id, self.base_id, *identity),
    {
        same_place(self.store_id, self.campaign_id, self.base_id, identity)
    }
}

impl InternalProtocolBinding {
    pub fn matches_identity(&self, identity: &StoreIdentity) -> (r: bool)
        ensures
            r == binds_identity(self.store_id, self.campaign_id, self.base_id, *identity),
    {
        same_place(self.store_id, self.campaign_id, self.base_id, identity)
    }
}

impl AgentDataBinding {
    pub fn matches_identity(&self, identity: &StoreIdentity) -> (r: bool)
        ensures
            r == binds_identity(self.store_id, self.campaign_id, self.base_id, *identity),
    {
        same_place(self.store_id, self.campaign_id, self.base_id, identity)
    }
}

/// The token of the registry that issued a handle or grant; a grant is only
/// honoured by the service whose registry issued it.
#[derive(Clone, Copy, Debug, PartialEq, Eq, Structural)]
pub struct TrustSeal(pub u64);

/// What a data-proposal grant binds, as plain values.
pub ghost struct AgentDataGrantView {
    pub actor: ActorRef,
    pub store_id: StoreId,
    pub campaign_id: CampaignId,
    pub base_id: BaseId,
    pub command_digest: DigestValue,
    pub event_id: EventId,
    pub kind: EventKind,
    pub seal: TrustSeal,
}

/// A non-authorizing proposal grant.
pub struct AgentDataGrant {
    actor: ActorRef,
    store_id: StoreId,
    campaign_id: CampaignId,
    base_id: BaseId,
    command_digest: DigestValue,
    event_id: EventId,
    kind: EventKind,
    seal: TrustSeal,
}

impl View for AgentDataGrant {
    type V = AgentDataGrantView;

    closed spec fn view(&self) -> AgentDataGrantView {
        AgentDataGrantView {
            actor: self.actor,
            store_id: self.store_id,
            campaign_id: self.campaign_id,
            base_id: self.base_id,
            command_digest: self.command_digest,
            event_id: self.event_id,
            kind: self.kind,
            seal: self.seal,
        }
    }
}

/// A data-proposal grant authorizes exactly the frame it was issued for, under
/// the seal of the registry that issued it.
pub open spec fn agent_data_authorizes(g: AgentDataGrantView, seal: TrustSeal, frame: CommandFrame) -> bool {
    &&& g.seal == seal
    &&& g.store_id == frame.store_id
    &&& g.campaign_id == frame.campaign_id
    &&& g.base_id == frame.base_id
    &&& g.command_digest == frame.digest
    &&& g.event_id == frame.event_id
    &&& g.kind == frame.kind
}

impl AgentDataGrant {
    pub fn actor(&self) -> (r: &ActorRef)
        ensures
            *r == self@.actor,
    {
        &self.actor
    }

    pub fn campaign_id(&self) -> (r: &CampaignId)
        ensures
            *r == self@.campaign_id,
    {
        &self.campaign_id
    }

    pub fn authorizes(&self, seal: TrustSeal, frame: &CommandFrame) -> (r: bool)
        ensures
            r == agent_data_authorizes(self@, seal, *frame),
    {
        self.seal.0 == seal.0 && self.store_id.0 == frame.store_id.0 && self.campaign_id.0 == frame.campaign_id.0
            && self.base_id.0 == frame.base_id.0 && self.command_digest.0 == frame.digest.0
            && self.event_id.0 == frame.event_id.0 && self.kind.0 == frame.kind.0
    }
}

/// What a trusted observation grant binds, as plain values.
pub ghost struct ObservationGrantView {
    pub actor: ActorRef,
    pub campaign_id: CampaignId,
    pub source: ObservationRef,
    pub harness_id: HarnessId,
    pub controller_epoch: ControllerEpoch,
    pub seal: TrustSeal,
    pub command_digest: DigestValue,
    pub event_id: EventId,
    pub kind: EventKind,
}

/// A bound trusted observation grant.
pub struct TrustedObservationGrant {
    actor: ActorRef,
    campaign_id: CampaignId,
    source: ObservationRef,
    harness_id: HarnessId,
    controller_epoch: ControllerEpoch,
    seal: TrustSeal,
    command_digest: DigestValue,
    event_id: EventId,
    kind: EventKind,
}

impl View for TrustedObservationGrant {
    type V = ObservationGrantView;

    closed spec fn view(&self) -> ObservationGrantView {
        ObservationGrantView {
            actor: self.actor,
            campaign_id: self.campaign_id,
            source: self.source,
            harness_id: self.harness_id,
            controller_epoch: self.controller_epoch,
            seal: self.seal,
            command_digest: self.command_digest,
            event_id: self.event_id,
            kind: self.kind,
        }
    }
}

/// An observation grant authorizes exactly the frame it was issued for, in
/// its campaign, under the issuing registry's seal.
pub open spec fn observation_authorizes(g: ObservationGrantView, seal: TrustSeal, frame: CommandFrame) -> bool {
    &&& g.seal == seal
    &&& g.command_digest == frame.digest
    &&& g.event_id == frame.event_id
    &&& g.kind == frame.kind
    &&& g.campaign_id == frame.campaign_id
}

impl TrustedObservationGrant {
    pub fn actor(&self) -> (r: &ActorRef)
        ensures
            *r == self@.actor,
    {
        &self.actor
    }

    pub fn campaign_id(&self) -> (r: &CampaignId)
        ensures
            *r == self@.campaign_id,
    {
        &self.campaign_id
    }

    pub fn observation_ref(&self) -> (r: &ObservationRef)
        ensures
            *r == self@.source,
    {
        &self.source
    }

    pub fn harness_id(&self) -> (r: &HarnessId)
        ensures
            *r == self@.harness_id,
    {
        &self.harness_id
    }

    pub fn authorizes(&self, seal: TrustSeal, frame: &CommandFrame) -> (r: bool)
        ensures
            r == observation_authorizes(self@, seal, *frame),
    {
        let epoch = self.controller_epoch.get();
        epoch > 0 && self.seal.0 == seal.0 && self.command_digest.0 == frame.digest.0
            && self.event_id.0 == frame.event_id.0 && self.kind.0 == frame.kind.0
            && self.campaign_id.0 == frame.campaign_id.0
    }
}

/// What an internal service permit binds, as plain values.
pub ghost struct ServicePermitView {
    pub principal_id: PrincipalId,
    pub operation: OperationId,
    pub controller_epoch: ControllerEpoch,
    pub seal: TrustSeal,
    pub command_digest: DigestValue,
    pub event_id: EventId,
    pub kind: EventKind,
}

/// An internal service operation permit.
pub struct ServicePermit {
    principal_id: PrincipalId,
    operation: OperationId,
    controller_epoch: ControllerEpoch,
    seal: TrustSeal,
    command_digest: DigestValue,
    event_id: EventId,
    kind: EventKind,
}

impl View for ServicePermit {
    type V = ServicePermitView;

    closed spec fn view(&self) -> ServicePermitView {
        ServicePermitView {
            principal_id: self.principal_id,
            operation: self.operation,
            controller_epoch: self.controller_epoch,
            seal: self.seal,
            command_digest: self.command_digest,
            event_id: self.event_id,
            kind: self.kind,
        }
    }
}

/// A service permit authorizes exactly the frame it was issued for, under the
/// issuing registry's seal.
pub open spec fn permit_authorizes(p: ServicePermitView, seal: TrustSeal, frame: CommandFrame) -> bool {
    &&& p.seal == seal
    &&& p.command_digest == frame.digest
    &&& p.event_id == frame.event_id
    &&& p.kind == frame.kind
}

impl ServicePermit {
    pub fn operation(&self) -> (r: &OperationId)
        ensures
            *r == self@.operation,
    {
        &self.operation
    }

    pub fn principal_id(&self) -> (r: &PrincipalId)
        ensures
            *r == self@.principal_id,
    {
        &self.principal_id
    }

    pub fn authorizes(&self, seal: TrustSeal, frame: &CommandFrame) -> (r: bool)
        ensures
            r == permit_authorizes(self@, seal, *frame),
    {
        let epoch = self.controller_epoch.get();
        epoch > 0 && self.seal.0 == seal.0 && self.command_digest.0 == frame.digest.0
            && self.event_id.0 == frame.event_id.0 && self.kind.0 == frame.kind.0
    }
}

/// Opaque authority retained only by trusted startup/runtime composition.
pub struct TrustedHostHandle {
    seal: TrustSeal,
    binding: TrustedHostBinding,
}

/// Opaque authority retained only by trusted internal protocol composition.
pub struct InternalProtocolHandle {
    seal: TrustSeal,
    binding: InternalProtocolBinding,
}

/// Opaque issuer of data-proposal grants.
pub struct AgentDataIssuerHandle {
    seal: TrustSeal,
    binding: AgentDataBinding,
}

impl AgentDataIssuerHandle {
    pub closed spec fn handle_seal(&self) -> TrustSeal {
        self.seal
    }

    pub closed spec fn bound(&self) -> (PrincipalId, StoreId, CampaignId, BaseId, Seq<EventKind>) {
        (self.binding.principal_id, self.binding.store_id, self.binding.campaign_id, self.binding.base_id, self.binding.allowed_events@)
    }

    /// The grant the handle issues for a frame bound to it.
    pub open spec fn issued(&self, frame: CommandFrame) -> AgentDataGrantView {
        AgentDataGrantView {
            actor: ActorRef { principal_id: self.bound().0, operation: OperationRef::Command(frame.command_id), role: PrincipalRole::Worker },
            store_id: self.bound().1,
            campaign_id: self.bound().2,
            base_id: self.bound().3,
            command_digest: frame.digest,
            event_id: frame.event_id,
            kind: frame.kind,
            seal: self.handle_seal(),
        }
    }

    /// Issues a data-proposal grant for a frame bound to this issuer.
    pub fn authorize(&self, frame: &CommandFrame) -> (r: Result<AgentDataGrant, ZapError>)
        ensures
            r is Ok <==> frame_bound(self.bound().1, self.bound().2, self.bound().3, self.bound().4, *frame),
            r matches Ok(g) ==> g@ == self.issued(*frame),
            r matches Err(e) ==> e.code == ErrorCode::Unauthorized,
    {
        match validate_bound_frame(self.binding.store_id, self.binding.campaign_id, self.binding.base_id, self.binding.allowed_events.as_slice(), frame) {
            Err(e) => Err(e),
            Ok(()) => Ok(AgentDataGrant {
                actor: ActorRef { principal_id: self.binding.principal_id, operation: OperationRef::Command(frame.command_id), role: PrincipalRole::Worker },
                store_id: self.binding.store_id,
                campaign_id: self.binding.campaign_id,
                base_id: self.binding.base_id,
                command_digest: frame.digest,
                event_id: frame.event_id,
                kind: frame.kind,
                seal: self.seal,
            }),
        }
    }
}

impl TrustedHostHandle {
    pub closed spec fn handle_seal(&self) -> TrustSeal {
        self.seal
    }

    pub closed spec fn bound(&self) -> (PrincipalId, StoreId, CampaignId, BaseId, Seq<EventKind>) {
        (self.binding.principal_id, self.binding.store_id, self.binding.campaign_id, self.binding.base_id, self.binding.allowed_events@)
    }

    pub closed spec fn host(&self) -> (ObservationRef, HarnessId, ControllerEpoch) {
        (self.binding.observation, self.binding.harness_id, self.binding.controller_epoch)
    }

    /// The grant the handle issues for a frame bound to it.
    pub open spec fn issued(&self, frame: CommandFrame, operation: OperationRef) -> ObservationGrantView {
        ObservationGrantView {
            actor: ActorRef { principal_id: self.bound().0, operation, role: PrincipalRole::TrustedHost },
            campaign_id: self.bound().2,
            source: self.host().0,
            harness_id: self.host().1,
            controller_epoch: self.host().2,
            seal: self.handle_seal(),
            command_digest: frame.digest,
            event_id: frame.event_id,
            kind: frame.kind,
        }
    }

    /// Issues a trusted observation grant for a frame bound to this host.
    pub fn authorize(&self, frame: &CommandFrame, operation: OperationRef) -> (r: Result<TrustedObservationGrant, ZapError>)
        ensures
            r is Ok <==> frame_bound(self.bound().1, self.bound().2, self.bound().3, self.bound().4, *frame),
            r matches Ok(g) ==> g@ == self.issued(*frame, operation),
            r matches Err(e) ==> e.code == ErrorCode::Unauthorized,
    {
        match validate_bound_frame(self.binding.store_id, self.binding.campaign_id, self.binding.base_id, self.binding.allowed_events.as_slice(), frame) {
            Err(e) => Err(e),
            Ok(()) => Ok(TrustedObservationGrant {
                actor: ActorRef { principal_id: self.binding.principal_id, operation, role: PrincipalRole::TrustedHost },
                campaign_id: self.binding.campaign_id,
                source: self.binding.observation,
                harness_id: self.binding.harness_id,
                controller_epoch: self.binding.controller_epoch,
                seal: self.seal,
                command_digest: frame.digest,
                event_id: frame.event_id,
                kind: frame.kind,
            }),
        }
    }
}

impl InternalProtocolHandle {
    pub closed spec fn handle_seal(&self) -> TrustSeal {
        self.seal
    }

    pub closed spec fn bound(&self) -> (PrincipalId, StoreId, CampaignId, BaseId, Seq<EventKind>) {
        (self.binding.principal_id, self.binding.store_id, self.binding.campaign_id, self.binding.base_id, self.binding.allowed_events@)
    }

    pub closed spec fn epoch(&self) -> ControllerEpoch {
        self.binding.controller_epoch
    }

    /// The permit the handle issues for a frame bound to it.
    pub open spec fn issued(&self, frame: CommandFrame, operation: OperationId) -> ServicePermitView {
        ServicePermitView {
            principal_id: self.bound().0,
            operation,
            controller_epoch: self.epoch(),
            seal: self.handle_seal(),
            command_digest: frame.digest,
            event_id: frame.event_id,
            kind: frame.kind,
        }
    }

    /// Issues an internal service permit for a frame bound to this protocol.
    pub fn authorize(&self, frame: &CommandFrame, operation: OperationId) -> (r: Result<ServicePermit, ZapError>)
        ensures
            r is Ok <==> frame_bound(self.bound().1, self.bound().2, self.bound().3, self.bound().4, *frame),
            r matches Ok(p) ==> p@ == self.issued(*frame, operation),
            r matches Err(e) ==> e.code == ErrorCode::Unauthorized,
    {
        match validate_bound_frame(self.binding.store_id, self.binding.campaign_id, self.binding.base_id, self.binding.allowed_events.as_slice(), frame) {
            Err(e) => Err(e),
            Ok(()) => Ok(ServicePermit {
                principal_id: self.binding.principal_id,
                operation,
                controller_epoch: self.binding.controller_epoch,
                seal: self.seal,
                command_digest: frame.digest,
                event_id: frame.event_id,
                kind: frame.kind,
            }),
        }
    }
}

/// A data-proposal grant issued for a frame authorizes that frame under the
/// issuing registry's seal, and under no other seal.
pub proof fn law_agent_data_grant_authorizes_its_frame(h: AgentDataIssuerHandle, frame: CommandFrame, other: TrustSeal)
    requires
        frame_bound(h.bound().1, h.bound().2, h.bound().3, h.bound().4, frame),
    ensures
        agent_data_authorizes(h.issued(frame), h.handle_seal(), frame),
        other != h.handle_seal() ==> !agent_data_authorizes(h.issued(frame), other, frame),
{
}

/// An observation grant issued for a frame authorizes that frame under the
/// issuing registry's seal, and under no other seal.
pub proof fn law_observation_grant_authorizes_its_frame(t: TrustedHostHandle, frame: CommandFrame, operation: OperationRef, other: TrustSeal)
    requires
        frame_bound(t.bound().1, t.bound().2, t.bound().3, t.bound().4, frame),
    ensures
        observation_authorizes(t.issued(frame, operation), t.handle_seal(), frame),
        other != t.handle_seal() ==> !observation_authorizes(t.issued(frame, operation), other, frame),
{
}

/// A service permit issued for a frame authorizes that frame under the issuing
/// registry's seal, and under no other seal.
pub proof fn law_service_permit_authorizes_its_frame(p: InternalProtocolHandle, frame: CommandFrame, operation: OperationId, other: TrustSeal)
    ensures
        permit_authorizes(p.issued(frame, operation), p.handle_seal(), frame),
        other != p.handle_seal() ==> !permit_authorizes(p.issued(frame, operation), other, frame),
{
}

/// What a credential binding holds, as plain values.
pub ghost struct CredentialView {
    pub id: CredentialId,
    pub campaign: CampaignId,
    pub role: PrincipalRole,
    pub reference: Seq<char>,
    pub coordinator: Option<ScopeView<ActionClass>>,
    pub owner: Option<ScopeView<ControlClass>>,
}

/// One credential, its verifier and the scope it was bound with.
pub struct CredentialBinding {
    id: CredentialId,
    campaign: CampaignId,
    role: PrincipalRole,
    verifier: Box<dyn SecretVerifier>,
    reference: AuthorizationRef,
    coordinator: Option<CoordinatorScope>,
    owner: Option<OwnerScope>,
}

impl View for CredentialBinding {
    type V = CredentialView;

    closed spec fn view(&self) -> CredentialView {
        CredentialView {
            id: self.id,
            campaign: self.campaign,
            role: self.role,
            reference: self.reference@,
            coordinator: match self.coordinator {
                Some(s) => Some(s@),
                None => None,
            },
            owner: match self.owner {
                Some(s) => Some(s@),
                None => None,
            },
        }
    }
}

/// Where a host, protocol or data binding is bound, as plain values.
pub ghost struct PlaceView {
    pub principal_id: PrincipalId,
    pub store_id: StoreId,
    pub campaign_id: CampaignId,
    pub base_id: BaseId,
    pub allowed: Seq<EventKind>,
}

pub open spec fn host_place(b: TrustedHostBinding) -> PlaceView {
    PlaceView { principal_id: b.principal_id, store_id: b.store_id, campaign_id: b.campaign_id, base_id: b.base_id, allowed: b.allowed_events@ }
}

pub open spec fn protocol_place(b: InternalProtocolBinding) -> PlaceView {
    PlaceView { principal_id: b.principal_id, store_id: b.store_id, campaign_id: b.campaign_id, base_id: b.base_id, allowed: b.allowed_events@ }
}

pub open spec fn data_place(b: AgentDataBinding) -> PlaceView {
    PlaceView { principal_id: b.principal_id, store_id: b.store_id, campaign_id: b.campaign_id, base_id: b.base_id, allowed: b.allowed_events@ }
}

/// A credential is well bound when its scope fits its role and campaign and
/// its authorization reference is not empty; workers and trusted hosts hold no
/// credentials.
pub open spec fn credential_valid(c: CredentialView) -> bool {
    &&& match c.role {
        PrincipalRole::Reader => c.coordinator is None && c.owner is None,
        PrincipalRole::Coordinator => c.coordinator matches Some(s) && s.campaign == c.campaign,
        PrincipalRole::Owner => c.owner matches Some(s) && s.campaign == c.campaign,
        PrincipalRole::Worker | PrincipalRole::TrustedHost => false,
    }
    &&& c.reference.len() > 0
}

/// A host, protocol or data binding is well bound when it is for the
/// service's store, campaign and base and allows at least one event kind.
pub open spec fn place_valid(b: PlaceView, identity: StoreIdentity) -> bool {
    binds_identity(b.store_id, b.campaign_id, b.base_id, identity) && b.allowed.len() > 0
}

/// Every binding of the registry is well bound for the service's identity.
pub open spec fn registry_valid(
    credentials: Seq<CredentialView>,
    hosts: Seq<PlaceView>,
    protocols: Seq<PlaceView>,
    data: Seq<PlaceView>,
    identity: StoreIdentity,
) -> bool {
    &&& forall|i: int| 0 <= i < credentials.len() ==> credential_valid(#[trigger] credentials[i])
    &&& forall|i: int| 0 <= i < hosts.len() ==> place_valid(#[trigger] hosts[i], identity)
    &&& forall|i: int| 0 <= i < protocols.len() ==> place_valid(#[trigger] protocols[i], identity)
    &&& forall|i: int| 0 <= i < data.len() ==> place_valid(#[trigger] data[i], identity)
}

/// Whether some binding in the list is for this principal.
pub open spec fn principal_bound(places: Seq<PlaceView>, principal: PrincipalId) -> bool {
    exists|i: int| 0 <= i < places.len() && (#[trigger] places[i]).principal_id == principal
}

/// Whether some credential in the list has this id.
pub open spec fn credential_bound(credentials: Seq<CredentialView>, id: CredentialId) -> bool {
    exists|i: int| 0 <= i < credentials.len() && (#[trigger] credentials[i]).id == id
}

/// The startup trust installed for one service.
pub struct TrustRegistry {
    seal: TrustSeal,
    credentials: Vec<CredentialBinding>,
    trusted_hosts: Vec<TrustedHostBinding>,
    internal_protocols: Vec<InternalProtocolBinding>,
    agent_data: Vec<AgentDataBinding>,
}

impl TrustRegistry {
    pub closed spec fn registry_seal(&self) -> TrustSeal {
        self.seal
    }

    pub closed spec fn credential_views(&self) -> Seq<CredentialView> {
        self.credentials@.map_values(|c: CredentialBinding| c@)
    }

    /// The verifier of the i-th bound credential accepts the secret.
    pub closed spec fn credential_accepts(&self, i: int, secret: Seq<u8>) -> bool {
        self.credentials@[i].verifier.accepts(secret)
    }

    pub closed spec fn host_views(&self) -> Seq<PlaceView> {
        self.trusted_hosts@.map_values(|b: TrustedHostBinding| host_place(b))
    }

    pub closed spec fn protocol_views(&self) -> Seq<PlaceView> {
        self.internal_protocols@.map_values(|b: InternalProtocolBinding| protocol_place(b))
    }

    pub closed spec fn data_views(&self) -> Seq<PlaceView> {
        self.agent_data@.map_values(|b: AgentDataBinding| data_place(b))
    }

    /// An empty registry under a seal.
    pub fn new(seal: TrustSeal) -> (r: TrustRegistry)
        ensures
            r.registry_seal() == seal,
            r.credential_views().len() == 0,
            r.host_views().len() == 0,
            r.protocol_views().len() == 0,
            r.data_views().len() == 0,
    {
        TrustRegistry {
            seal,
            credentials: Vec::new(),
            trusted_hosts: Vec::new(),
            internal_protocols: Vec::new(),
            agent_data: Vec::new(),
        }
    }

    /// Refuses a registry with a badly bound credential or a binding for
    /// another store, campaign or base, or with no allowed event kind.
    pub fn validate(&self, identity: &StoreIdentity) -> (r: Result<(), ZapError>)
        ensures
            r is Ok <==> registry_valid(self.credential_views(), self.host_views(), self.protocol_views(), self.data_views(), *identity),
            r matches Err(e) ==> e.code == ErrorCode::Unauthorized,
    {
        let mut i: usize = 0;
        while i < self.credentials.len()
            invariant
                i <= self.credentials.len(),
                forall|k: int| 0 <= k < i ==> credential_valid(#[trigger] self.credential_views()[k]),
            decreases self.credentials.len() - i,
        {
            let c = &self.credentials[i];
            let scope_matches = match c.role {
                PrincipalRole::Reader => c.coordinator.is_none() && c.owner.is_none(),
                PrincipalRole::Coordinator => match &c.coordinator {
                    Some(s) => s.campaign_id().0 == c.campaign.0,
                    None => false,
                },
                PrincipalRole::Owner => match &c.owner {
                    Some(s) => s.campaign_id().0 == c.campaign.0,
                    None => false,
                },
                PrincipalRole::Worker | PrincipalRole::TrustedHost => false,
            };
            assert(self.credential_views()[i as int] == c@);
            if !scope_matches || c.reference.is_empty() {
                return Err(ZapError::new(ErrorCode::Unauthorized));
            }
            i += 1;
        }
        let mut i: usize = 0;
        while i < self.trusted_hosts.len()
            invariant
                i <= self.trusted_hosts.len(),
                forall|k: int| 0 <= k < i ==> place_valid(#[trigger] self.host_views()[k], *identity),
            decreases self.trusted_hosts.len() - i,
        {
            let b = &self.trusted_hosts[i];
            assert(self.host_views()[i as int] == host_place(*b));
            if !b.matches_identity(identity) || b.allowed_events.len() == 0 {
                return Err(ZapError::new(ErrorCode::Unauthorized));
            }
            i += 1;
        }
        let mut i: usize = 0;
        while i < self.internal_protocols.len()
            invariant
                i <= self.internal_protocols.len(),
                forall|k: int| 0 <= k < i ==> place_valid(#[trigger] self.protocol_views()[k], *identity),
            decreases self.internal_protocols.len() - i,
        {
            let b = &self.internal_protocols[i];
            assert(self.protocol_views()[i as int] == protocol_place(*b));
            if !b.matches_identity(identity) || b.allowed_events.len() == 0 {
                return Err(ZapError::new(ErrorCode::Unauthorized));
            }
            i += 1;
        }
        let mut i: usize = 0;
        while i < self.agent_data.len()
            invariant
                i <= self.agent_data.len(),
                forall|k: int| 0 <= k < i ==> place_valid(#[trigger] self.data_views()[k], *identity),
            decreases self.agent_data.len() - i,
        {
            let b = &self.agent_data[i];
            assert(self.data_views()[i as int] == data_place(*b));
            if !b.matches_identity(identity) || b.allowed_events.len() == 0 {
                return Err(ZapError::new(ErrorCode::Unauthorized));
            }
            i += 1;
        }
        Ok(())
    }

    /// Refuses a data-proposal binding that allows an event kind not routed as
    /// a data proposal.
    pub fn validate_data_routes(&self, data_routes: &[EventKind]) -> (r: Result<(), ZapError>)
        ensures
            r is Ok <==> (forall|i: int, k: int| 0 <= i < self.data_views().len() && 0 <= k < self.data_views()[i].allowed.len()
                ==> data_routes@.contains(#[trigger] self.data_views()[i].allowed[k])),
            r matches Err(e) ==> e.code == ErrorCode::Unauthorized,
    {
        let mut i: usize = 0;
        while i < self.agent_data.len()
            invariant
                i <= self.agent_data.len(),
                forall|a: int, k: int| 0 <= a < i && 0 <= k < self.data_views()[a].allowed.len()
                    ==> data_routes@.contains(#[trigger] self.data_views()[a].allowed[k]),
            decreases self.agent_data.len() - i,
        {
            let b = &self.agent_data[i];
            assert(self.data_views()[i as int] == data_place(*b));
            let mut k: usize = 0;
            while k < b.allowed_events.len()
                invariant
                    i < self.agent_data.len(),
                    b == &self.agent_data@[i as int],
                    self.data_views()[i as int] == data_place(*b),
                    k <= b.allowed_events.len(),
                    forall|a: int, m: int| 0 <= a < i && 0 <= m < self.data_views()[a].allowed.len()
                        ==> data_routes@.contains(#[trigger] self.data_views()[a].allowed[m]),
                    forall|m: int| 0 <= m < k ==> data_routes@.contains(#[trigger] self.data_views()[i as int].allowed[m]),
                decreases b.allowed_events.len() - k,
            {
                if !contains_event(data_routes, b.allowed_events[k]) {
                    assert(self.data_views()[i as int].allowed[k as int] == b.allowed_events@[k as int]);
                    return Err(ZapError::new(ErrorCode::Unauthorized));
                }
                k += 1;
            }
            i += 1;
        }
        Ok(())
    }
}

/// The construction-time registrar through which a bootstrap source installs
/// trust; it owns the registry until the service takes it.
pub struct TrustRegistrar {
    registry: TrustRegistry,
}

impl TrustRegistrar {
    pub closed spec fn spec_registry(&self) -> TrustRegistry {
        self.registry
    }

    pub fn new(seal: TrustSeal) -> (r: TrustRegistrar)
        ensures
            r.spec_registry().registry_seal() == seal,
            r.spec_registry().credential_views().len() == 0,
            r.spec_registry().host_views().len() == 0,
            r.spec_registry().protocol_views().len() == 0,
            r.spec_registry().data_views().len() == 0,
    {
        TrustRegistrar { registry: TrustRegistry::new(seal) }
    }

    /// Hands the installed registry to the service.
    pub fn into_registry(self) -> (r: TrustRegistry)
        ensures
            r == self.spec_registry(),
    {
        self.registry
    }

    fn insert(&mut self, binding: CredentialBinding) -> (r: Result<(), ZapError>)
        ensures
            r is Ok <==> !credential_bound(old(self).spec_registry().credential_views(), binding@.id),
            r is Ok ==> final(self).spec_registry().credential_views() == old(self).spec_registry().credential_views().push(binding@),
            r is Err ==> final(self).spec_registry().credential_views() == old(self).spec_registry().credential_views(),
            r matches Err(e) ==> e.code == ErrorCode::DuplicateIdentity && e.detail == ErrorDetail::Empty,
            final(self).spec_registry().host_views() == old(self).spec_registry().host_views(),
            final(self).spec_registry().protocol_views() == old(self).spec_registry().protocol_views(),
            final(self).spec_registry().data_views() == old(self).spec_registry().data_views(),
            final(self).spec_registry().registry_seal() == old(self).spec_registry().registry_seal(),
    {
        let mut i: usize = 0;
        while i < self.registry.credentials.len()
            invariant
                i <= self.registry.credentials.len(),
                forall|k: int| 0 <= k < i ==> (#[trigger] self.registry.credential_views()[k]).id != binding@.id,
            decreases self.registry.credentials.len() - i,
        {
            assert(self.registry.credential_views()[i as int] == self.registry.credentials@[i as int]@);
            if self.registry.credentials[i].id.0 == binding.id.0 {
                return Err(ZapError::new(ErrorCode::DuplicateIdentity));
            }
            i += 1;
        }
        let ghost before = self.registry.credentials@;
        self.registry.credentials.push(binding);
        proof {
            assert(self.registry.credentials@.map_values(|c: CredentialBinding| c@) =~= before.map_values(|c: CredentialBinding| c@).push(binding@));
        }
        Ok(())
    }

    /// Binds a reader credential; an id bound before is a duplicate identity.
    pub fn bind_reader(&mut self, id: CredentialId, campaign: CampaignId, verifier: Box<dyn SecretVerifier>, reference: AuthorizationRef) -> (r: Result<(), ZapError>)
        ensures
            r is Ok <==> !credential_bound(old(self).spec_registry().credential_views(), id),
            r is Ok ==> final(self).spec_registry().credential_views() == old(self).spec_registry().credential_views().push(
                CredentialView { id, campaign, role: PrincipalRole::Reader, reference: reference@, coordinator: None, owner: None }),
            r is Err ==> final(self).spec_registry().credential_views() == old(self).spec_registry().credential_views(),
            r matches Err(e) ==> e.code == ErrorCode::DuplicateIdentity,
            final(self).spec_registry().host_views() == old(self).spec_registry().host_views(),
            final(self).spec_registry().protocol_views() == old(self).spec_registry().protocol_views(),
            final(self).spec_registry().data_views() == old(self).spec_registry().data_views(),
    {
        self.insert(CredentialBinding { id, campaign, role: PrincipalRole::Reader, verifier, reference, coordinator: None, owner: None })
    }

    /// Binds a coordinator credential; its scope must be for the same campaign.
    pub fn bind_coordinator(&mut self, id: CredentialId, campaign: CampaignId, verifier: Box<dyn SecretVerifier>, scope: CoordinatorScope, reference: AuthorizationRef) -> (r: Result<(), ZapError>)
        ensures
            scope@.campaign != campaign ==> r == Err::<(), ZapError>(ZapError { code: ErrorCode::Unauthorized, detail: ErrorDetail::Empty }),
            scope@.campaign == campaign ==> (r is Ok <==> !credential_bound(old(self).spec_registry().credential_views(), id)),
            scope@.campaign == campaign && r is Err ==> r == Err::<(), ZapError>(ZapError { code: ErrorCode::DuplicateIdentity, detail: ErrorDetail::Empty }),
            r is Ok ==> final(self).spec_registry().credential_views() == old(self).spec_registry().credential_views().push(
                CredentialView { id, campaign, role: PrincipalRole::Coordinator, reference: reference@, coordinator: Some(scope@), owner: None }),
            r is Err ==> final(self).spec_registry().credential_views() == old(self).spec_registry().credential_views(),
            final(self).spec_registry().host_views() == old(self).spec_registry().host_views(),
            final(self).spec_registry().protocol_views() == old(self).spec_registry().protocol_views(),
            final(self).spec_registry().data_views() == old(self).spec_registry().data_views(),
    {
        if scope.campaign_id().0 != campaign.0 {
            return Err(ZapError::new(ErrorCode::Unauthorized));
        }
        self.insert(CredentialBinding { id, campaign, role: PrincipalRole::Coordinator, verifier, reference, coordinator: Some(scope), owner: None })
    }

    /// Binds an Owner credential; its scope must be for the same campaign.
    pub fn bind_owner(&mut self, id: CredentialId, campaign: CampaignId, verifier: Box<dyn SecretVerifier>, scope: OwnerScope, reference: AuthorizationRef) -> (r: Result<(), ZapError>)
        ensures
            scope@.campaign != campaign ==> r == Err::<(), ZapError>(ZapError { code: ErrorCode::Unauthorized, detail: ErrorDetail::Empty }),
            scope@.campaign == campaign ==> (r is Ok <==> !credential_bound(old(self).spec_registry().credential_views(), id)),
            scope@.campaign == campaign && r is Err ==> r == Err::<(), ZapError>(ZapError { code: ErrorCode::DuplicateIdentity, detail: ErrorDetail::Empty }),
            r is Ok ==> final(self).spec_registry().credential_views() == old(self).spec_registry().credential_views().push(
                CredentialView { id, campaign, role: PrincipalRole::Owner, reference: reference@, coordinator: None, owner: Some(scope@) }),
            r is Err ==> final(self).spec_registry().credential_views() == old(self).spec_registry().credential_views(),
            final(self).spec_registry().host_views() == old(self).spec_registry().host_views(),
            final(self).spec_registry().protocol_views() == old(self).spec_registry().protocol_views(),
            final(self).spec_registry().data_views() == old(self).spec_registry().data_views(),
    {
        if scope.campaign_id().0 != campaign.0 || scope.controls().len() == 0 {
            return Err(ZapError::new(ErrorCode::Unauthorized));
        }
        self.insert(CredentialBinding { id, campaign, role: PrincipalRole::Owner, verifier, reference, coordinator: None, owner: Some(scope) })
    }

    /// Binds a trusted host; a principal bound before, or an empty event set,
    /// is refused as a duplicate identity.
    pub fn bind_trusted_host(&mut self, binding: TrustedHostBinding) -> (r: Result<TrustedHostHandle, ZapError>)
        ensures
            r is Ok <==> !principal_bound(old(self).spec_registry().host_views(), binding.principal_id) && binding.allowed_events@.len() > 0,
            r is Ok ==> final(self).spec_registry().host_views() == old(self).spec_registry().host_views().push(host_place(binding)),
            r matches Ok(h) ==> h.handle_seal() == old(self).spec_registry().registry_seal()
                && h.bound() == (binding.principal_id, binding.store_id, binding.campaign_id, binding.base_id, binding.allowed_events@)
                && h.host() == (binding.observation, binding.harness_id, binding.controller_epoch),
            r is Err ==> final(self).spec_registry().host_views() == old(self).spec_registry().host_views(),
            r matches Err(e) ==> e.code == ErrorCode::DuplicateIdentity,
            final(self).spec_registry().credential_views() == old(self).spec_registry().credential_views(),
            final(self).spec_registry().protocol_views() == old(self).spec_registry().protocol_views(),
            final(self).spec_registry().data_views() == old(self).spec_registry().data_views(),
    {
        let mut i: usize = 0;
        while i < self.registry.trusted_hosts.len()
            invariant
                i <= self.registry.trusted_hosts.len(),
                forall|k: int| 0 <= k < i ==> (#[trigger] self.registry.host_views()[k]).principal_id != binding.principal_id,
            decreases self.registry.trusted_hosts.len() - i,
        {
            assert(self.registry.host_views()[i as int] == host_place(self.registry.trusted_hosts@[i as int]));
            if self.registry.trusted_hosts[i].principal_id.0 == binding.principal_id.0 {
                return Err(ZapError::new(ErrorCode::DuplicateIdentity));
            }
            i += 1;
        }
        if binding.allowed_events.len() == 0 {
            return Err(ZapError::new(ErrorCode::DuplicateIdentity));
        }
        let ghost before = self.registry.trusted_hosts@;
        self.registry.trusted_hosts.push(binding.clone());
        proof {
            assert(self.registry.trusted_hosts@.map_values(|b: TrustedHostBinding| host_place(b))
                =~= before.map_values(|b: TrustedHostBinding| host_place(b)).push(host_place(binding)));
        }
        Ok(TrustedHostHandle { seal: self.registry.seal, binding })
    }

    /// Binds an internal protocol; a principal bound before, or an empty event
    /// set, is refused as a duplicate identity.
    pub fn bind_internal_protocol(&mut self, binding: InternalProtocolBinding) -> (r: Result<InternalProtocolHandle, ZapError>)
        ensures
            r is Ok <==> !principal_bound(old(self).spec_registry().protocol_views(), binding.principal_id) && binding.allowed_events@.len() > 0,
            r is Ok ==> final(self).spec_registry().protocol_views() == old(self).spec_registry().protocol_views().push(protocol_place(binding)),
            r matches Ok(h) ==> h.handle_seal() == old(self).spec_registry().registry_seal()
                && h.bound() == (binding.principal_id, binding.store_id, binding.campaign_id, binding.base_id, binding.allowed_events@)
                && h.epoch() == binding.controller_epoch,
            r is Err ==> final(self).spec_registry().protocol_views() == old(self).spec_registry().protocol_views(),
            r matches Err(e) ==> e.code == ErrorCode::DuplicateIdentity,
            final(self).spec_registry().credential_views() == old(self).spec_registry().credential_views(),
            final(self).spec_registry().host_views() == old(self).spec_registry().host_views(),
            final(self).spec_registry().data_views() == old(self).spec_registry().data_views(),
    {
        let mut i: usize = 0;
        while i < self.registry.internal_protocols.len()
            invariant
                i <= self.registry.internal_protocols.len(),
                forall|k: int| 0 <= k < i ==> (#[trigger] self.registry.protocol_views()[k]).principal_id != binding.principal_id,
            decreases self.registry.internal_protocols.len() - i,
        {
            assert(self.registry.protocol_views()[i as int] == protocol_place(self.registry.internal_protocols@[i as int]));
            if self.registry.internal_protocols[i].principal_id.0 == binding.principal_id.0 {
                return Err(ZapError::new(ErrorCode::DuplicateIdentity));
            }
            i += 1;
        }
        if binding.allowed_events.len() == 0 {
            return Err(ZapError::new(ErrorCode::DuplicateIdentity));
        }
        let ghost before = self.registry.internal_protocols@;
        self.registry.internal_protocols.push(binding.clone());
        proof {
            assert(self.registry.internal_protocols@.map_values(|b: InternalProtocolBinding| protocol_place(b))
                =~= before.map_values(|b: InternalProtocolBinding| protocol_place(b)).push(protocol_place(binding)));
        }
        Ok(InternalProtocolHandle { seal: self.registry.seal, binding })
    }

    /// Binds a data-proposal issuer; a principal bound before, or an empty
    /// event set, is refused as a duplicate identity.
    pub fn bind_agent_data(&mut self, binding: AgentDataBinding) -> (r: Result<AgentDataIssuerHandle, ZapError>)
        ensures
            r is Ok <==> !principal_bound(old(self).spec_registry().data_views(), binding.principal_id) && binding.allowed_events@.len() > 0,
            r is Ok ==> final(self).spec_registry().data_views() == old(self).spec_registry().data_views().push(data_place(binding)),
            r matches Ok(h) ==> h.handle_seal() == old(self).spec_registry().registry_seal()
                && h.bound() == (binding.principal_id, binding.store_id, binding.campaign_id, binding.base_id, binding.allowed_events@),
            r is Err ==> final(self).spec_registry().data_views() == old(self).spec_registry().data_views(),
            r matches Err(e) ==> e.code == ErrorCode::DuplicateIdentity,
            final(self).spec_registry().credential_views() == old(self).spec_registry().credential_views(),
            final(self).spec_registry().host_views() == old(self).spec_registry().host_views(),
            final(self).spec_registry().protocol_views() == old(self).spec_registry().protocol_views(),
    {
        if binding.allowed_events.len() == 0 {
            return Err(ZapError::new(ErrorCode::DuplicateIdentity));
        }
        let mut i: usize = 0;
        while i < self.registry.agent_data.len()
            invariant
                i <= self.registry.agent_data.len(),
                forall|k: int| 0 <= k < i ==> (#[trigger] self.registry.data_views()[k]).principal_id != binding.principal_id,
            decreases self.registry.agent_data.len() - i,
        {
            assert(self.registry.data_views()[i as int] == data_place(self.registry.agent_data@[i as int]));
            if self.registry.agent_data[i].principal_id.0 == binding.principal_id.0 {
                return Err(ZapError::new(ErrorCode::DuplicateIdentity));
            }
            i += 1;
        }
        let ghost before = self.registry.agent_data@;
        self.registry.agent_data.push(binding.clone());
        proof {
            assert(self.registry.agent_data@.map_values(|b: AgentDataBinding| data_place(b))
                =~= before.map_values(|b: AgentDataBinding| data_place(b)).push(data_place(binding)));
        }
        Ok(AgentDataIssuerHandle { seal: self.registry.seal, binding })
    }
}

/// What an authenticated principal holds, as plain values.
pub ghost struct PrincipalView {
    pub principal_id: PrincipalId,
    pub campaign_id: CampaignId,
    pub role: PrincipalRole,
    pub reference: Seq<char>,
    pub actions: Set<ActionClass>,
    pub controls: Set<ControlClass>,
    pub controller_epoch: Option<ControllerEpoch>,
}

/// A credentialed principal returned only by a credential authority.
pub struct AuthenticatedPrincipal {
    principal_id: PrincipalId,
    campaign_id: CampaignId,
    role: PrincipalRole,
    reference: AuthorizationRef,
    actions: Vec<ActionClass>,
    controls: Vec<ControlClass>,
    controller_epoch: Option<ControllerEpoch>,
}

impl View for AuthenticatedPrincipal {
    type V = PrincipalView;

    closed spec fn view(&self) -> PrincipalView {
        PrincipalView {
            principal_id: self.principal_id,
            campaign_id: self.campaign_id,
            role: self.role,
            reference: self.reference@,
            actions: self.actions@.to_set(),
            controls: self.controls@.to_set(),
            controller_epoch: self.controller_epoch,
        }
    }
}

impl AuthenticatedPrincipal {
    pub fn principal_id(&self) -> (r: &PrincipalId)
        ensures
            *r == self@.principal_id,
    {
        &self.principal_id
    }

    pub fn campaign_id(&self) -> (r: &CampaignId)
        ensures
            *r == self@.campaign_id,
    {
        &self.campaign_id
    }

    pub fn role(&self) -> (r: PrincipalRole)
        ensures
            r == self@.role,
    {
        self.role
    }

    pub fn authorization_ref(&self) -> (r: &AuthorizationRef)
        ensures
            r@ == self@.reference,
    {
        &self.reference
    }

    pub fn allows_action(&self, action: &ActionClass) -> (r: bool)
        ensures
            r == self@.actions.contains(*action),
    {
        contains_action(self.actions.as_slice(), *action)
    }

    pub fn allows_control(&self, control: ControlClass) -> (r: bool)
        ensures
            r == self@.controls.contains(control),
    {
        contains_control(self.controls.as_slice(), control)
    }

    pub fn controller_epoch(&self) -> (r: Option<ControllerEpoch>)
        ensures
            r == self@.controller_epoch,
    {
        self.controller_epoch
    }
}

/// A read-only grant returned by the credential authority.
pub struct ReaderGrant {
    principal_id: PrincipalId,
    campaign_id: CampaignId,
    reference: AuthorizationRef,
}

impl View for ReaderGrant {
    type V = (PrincipalId, CampaignId, Seq<char>);

    closed spec fn view(&self) -> (PrincipalId, CampaignId, Seq<char>) {
        (self.principal_id, self.campaign_id, self.reference@)
    }
}

impl ReaderGrant {
    pub fn principal_id(&self) -> (r: &PrincipalId)
        ensures
            *r == self@.0,
    {
        &self.principal_id
    }

    pub fn campaign_id(&self) -> (r: &CampaignId)
        ensures
            *r == self@.1,
    {
        &self.campaign_id
    }

    pub fn authorization_ref(&self) -> (r: &AuthorizationRef)
        ensures
            r@ == self@.2,
    {
        &self.reference
    }
}

/// The principal a verified credential authenticates as: coordinators carry
/// their scope's actions and epoch, Owners their scope's controls and epoch,
/// readers nothing; a credential of any other role, or missing its scope,
/// authenticates as no one. The principal id is the credential's number.
pub open spec fn authenticated_as(c: CredentialView) -> Option<PrincipalView> {
    let base = PrincipalView {
        principal_id: PrincipalId(c.id.0),
        campaign_id: c.campaign,
        role: c.role,
        reference: c.reference,
        actions: Set::empty(),
        controls: Set::empty(),
        controller_epoch: None,
    };
    match c.role {
        PrincipalRole::Coordinator => match c.coordinator {
            Some(s) => Some(PrincipalView { actions: s.granted, controller_epoch: Some(s.controller_epoch), ..base }),
            None => None,
        },
        PrincipalRole::Owner => match c.owner {
            Some(s) => Some(PrincipalView { controls: s.granted, controller_epoch: Some(s.controller_epoch), ..base }),
            None => None,
        },
        PrincipalRole::Reader => Some(base),
        PrincipalRole::Worker | PrincipalRole::TrustedHost => None,
    }
}

/// Builds the principal for a credential whose verifier answered
/// `secret_verified`; a refused secret is unauthorized.
pub fn principal_for(binding: &CredentialBinding, secret_verified: bool) -> (r: Result<AuthenticatedPrincipal, ZapError>)
    ensures
        r is Ok <==> secret_verified && authenticated_as(binding@) is Some,
        r matches Ok(p) ==> Some(p@) == authenticated_as(binding@),
        r matches Err(e) ==> e.code == ErrorCode::Unauthorized,
{
    if !secret_verified {
        return Err(ZapError::new(ErrorCode::Unauthorized));
    }
    let (actions, controls, controller_epoch): (Vec<ActionClass>, Vec<ControlClass>, Option<ControllerEpoch>) = match binding.role {
        PrincipalRole::Coordinator => match &binding.coordinator {
            Some(scope) => (scope.actions.clone(), Vec::new(), Some(scope.controller_epoch())),
            None => {
                return Err(ZapError::new(ErrorCode::Unauthorized));
            },
        },
        PrincipalRole::Owner => match &binding.owner {
            Some(scope) => (Vec::new(), scope.controls.clone(), Some(scope.controller_epoch())),
            None => {
                return Err(ZapError::new(ErrorCode::Unauthorized));
            },
        },
        PrincipalRole::Reader => (Vec::new(), Vec::new(), None),
        PrincipalRole::Worker | PrincipalRole::TrustedHost => {
            return Err(ZapError::new(ErrorCode::Unauthorized));
        },
    };
    let p = AuthenticatedPrincipal {
        principal_id: PrincipalId(binding.id.0),
        campaign_id: binding.campaign,
        role: binding.role,
        reference: binding.reference.clone(),
        actions,
        controls,
        controller_epoch,
    };
    proof {
        assert(Seq::<ActionClass>::empty().to_set() =~= Set::<ActionClass>::empty());
        assert(Seq::<ControlClass>::empty().to_set() =~= Set::<ControlClass>::empty());
    }
    Ok(p)
}

/// Whether a credential is the one presented for a campaign.
pub open spec fn presented(c: CredentialView, id: CredentialId, campaign: CampaignId) -> bool {
    c.id == id && c.campaign == campaign
}

/// Read-only credential verification and authentication.
pub trait CredentialAuthority {
    fn authenticate(&self, credential_id: &CredentialId, secret: SecretInput<'_>, campaign: &CampaignId) -> Result<AuthenticatedPrincipal, ZapError>;

    fn authorize_read(&self, credential_id: &CredentialId, secret: SecretInput<'_>, campaign: &CampaignId) -> Result<ReaderGrant, ZapError>;
}

/// The credential authority backed by the registry a service installed.
pub struct BoundCredentialAuthority {
    registry: TrustRegistry,
}

impl BoundCredentialAuthority {
    pub fn new(registry: TrustRegistry) -> (r: BoundCredentialAuthority)
        ensures
            r.spec_registry() == registry,
    {
        BoundCredentialAuthority { registry }
    }

    pub closed spec fn spec_registry(&self) -> TrustRegistry {
        self.registry
    }

    /// The first credential presented for the campaign, if any.
    fn find(&self, credential_id: &CredentialId, campaign: &CampaignId) -> (r: Option<usize>)
        ensures
            r matches Some(i) ==> i < self.registry.credential_views().len()
                && presented(self.registry.credential_views()[i as int], *credential_id, *campaign)
                && forall|k: int| 0 <= k < i ==> !presented(#[trigger] self.registry.credential_views()[k], *credential_id, *campaign),
            r is None ==> forall|k: int| 0 <= k < self.registry.credential_views().len()
                ==> !presented(#[trigger] self.registry.credential_views()[k], *credential_id, *campaign),
    {
        let mut i: usize = 0;
        while i < self.registry.credentials.len()
            invariant
                i <= self.registry.credentials.len(),
                forall|k: int| 0 <= k < i ==> !presented(#[trigger] self.registry.credential_views()[k], *credential_id, *campaign),
            decreases self.registry.credentials.len() - i,
        {
            let c = &self.registry.credentials[i];
            assert(self.registry.credential_views()[i as int] == c@);
            if c.id.0 == credential_id.0 && c.campaign.0 == campaign.0 {
                return Some(i);
            }
            i += 1;
        }
        None
    }
}

impl CredentialAuthority for BoundCredentialAuthority {
    /// Authenticates the credential presented for a campaign. An unknown
    /// credential is unauthorized; a known one authenticates as
    /// `authenticated_as` it when its verifier accepts the secret.
    fn authenticate(&self, credential_id: &CredentialId, secret: SecretInput<'_>, campaign: &CampaignId) -> (r: Result<AuthenticatedPrincipal, ZapError>)
        ensures
            (forall|k: int| 0 <= k < self.spec_registry().credential_views().len()
                ==> !presented(#[trigger] self.spec_registry().credential_views()[k], *credential_id, *campaign))
                ==> r == Err::<AuthenticatedPrincipal, ZapError>(ZapError { code: ErrorCode::Unauthorized, detail: ErrorDetail::Empty }),
            r matches Ok(p) ==> exists|i: int| 0 <= i < self.spec_registry().credential_views().len()
                && presented(#[trigger] self.spec_registry().credential_views()[i], *credential_id, *campaign)
                && (forall|k: int| 0 <= k < i ==> !presented(#[trigger] self.spec_registry().credential_views()[k], *credential_id, *campaign))
                && self.spec_registry().credential_accepts(i, secret@)
                && authenticated_as(self.spec_registry().credential_views()[i]) == Some(p@),
            forall|i: int| 0 <= i < self.spec_registry().credential_views().len()
                && presented(#[trigger] self.spec_registry().credential_views()[i], *credential_id, *campaign)
                && (forall|k: int| 0 <= k < i ==> !presented(#[trigger] self.spec_registry().credential_views()[k], *credential_id, *campaign))
                ==> (r is Ok <==> (self.spec_registry().credential_accepts(i, secret@)
                    && authenticated_as(self.spec_registry().credential_views()[i]) is Some)),
            r matches Err(e) ==> e.code == ErrorCode::Unauthorized,
    {
        match self.find(credential_id, campaign) {
            None => Err(ZapError::new(ErrorCode::Unauthorized)),
            Some(i) => {
                let binding = &self.registry.credentials[i];
                assert(self.registry.credential_views()[i as int] == binding@);
                let verified = binding.verifier.verify(secret);
                let r = principal_for(binding, verified);
                proof {
                    assert(verified == self.spec_registry().credential_accepts(i as int, secret@));
                    assert forall|j: int| 0 <= j < self.spec_registry().credential_views().len()
                        && presented(#[trigger] self.spec_registry().credential_views()[j], *credential_id, *campaign)
                        && (forall|k: int| 0 <= k < j ==> !presented(#[trigger] self.spec_registry().credential_views()[k], *credential_id, *campaign))
                        implies j == i as int by {
                        if j < i as int {
                        } else if j > i as int {
                            assert(presented(self.spec_registry().credential_views()[i as int], *credential_id, *campaign));
                        }
                    }
                    if r is Ok {
                        assert(presented(self.spec_registry().credential_views()[i as int], *credential_id, *campaign));
                    }
                    assert(!(forall|k: int| 0 <= k < self.spec_registry().credential_views().len()
                        ==> !presented(#[trigger] self.spec_registry().credential_views()[k], *credential_id, *campaign)));
                }
                r
            },
        }
    }

    /// A read grant for whoever authenticates with the credential.
    fn authorize_read(&self, credential_id: &CredentialId, secret: SecretInput<'_>, campaign: &CampaignId) -> (r: Result<ReaderGrant, ZapError>)
        ensures
            (forall|k: int| 0 <= k < self.spec_registry().credential_views().len()
                ==> !presented(#[trigger] self.spec_registry().credential_views()[k], *credential_id, *campaign))
                ==> r == Err::<ReaderGrant, ZapError>(ZapError { code: ErrorCode::Unauthorized, detail: ErrorDetail::Empty }),
            r matches Ok(g) ==> exists|i: int| 0 <= i < self.spec_registry().credential_views().len()
                && presented(#[trigger] self.spec_registry().credential_views()[i], *credential_id, *campaign)
                && (forall|k: int| 0 <= k < i ==> !presented(#[trigger] self.spec_registry().credential_views()[k], *credential_id, *campaign))
                && self.spec_registry().credential_accepts(i, secret@)
                && (authenticated_as(self.spec_registry().credential_views()[i]) matches Some(p)
                && g@ == (p.principal_id, p.campaign_id, p.reference)),
            forall|i: int| 0 <= i < self.spec_registry().credential_views().len()
                && presented(#[trigger] self.spec_registry().credential_views()[i], *credential_id, *campaign)
                && (forall|k: int| 0 <= k < i ==> !presented(#[trigger] self.spec_registry().credential_views()[k], *credential_id, *campaign))
                ==> (r is Ok <==> (self.spec_registry().credential_accepts(i, secret@)
                    && authenticated_as(self.spec_registry().credential_views()[i]) is Some)),
            r matches Err(e) ==> e.code == ErrorCode::Unauthorized,
    {
        match self.authenticate(credential_id, secret, campaign) {
            Err(e) => Err(e),
            Ok(p) => Ok(ReaderGrant { principal_id: p.principal_id, campaign_id: p.campaign_id, reference: p.reference }),
        }
    }
}

/// Registers startup trust only through the registrar.
pub trait TrustBootstrapSource {
    fn register(&self, registrar: &mut TrustRegistrar) -> Result<(), ZapError>;
}

/// The only public bootstrap source; it installs no trust bindings.
pub struct EmptyTrustBootstrap;

impl TrustBootstrapSource for EmptyTrustBootstrap {
    fn register(&self, registrar: &mut TrustRegistrar) -> (r: Result<(), ZapError>)
        ensures
            r is Ok,
            final(registrar).spec_registry() == old(registrar).spec_registry(),
    {
        Ok(())
    }
}

/// Once a credential id is bound, binding it again is refused: a successful
/// bind leaves the id bound, and a bound id makes every later bind fail.
pub proof fn law_credential_bound_once(credentials: Seq<CredentialView>, added: CredentialView)
    ensures
        credential_bound(credentials.push(added), added.id),
{
    assert(credentials.push(added)[credentials.len() as int] == added);
}

} // verus!
