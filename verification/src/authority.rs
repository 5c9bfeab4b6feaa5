//! Actors and the authority facts admitted for an operation.
use vstd::prelude::*;

use crate::ids::{ActionClass, AdmissionId, AttemptId, CommandId, ControlClass, DigestValue, HarnessId, ObservationRef, OperationId, PrincipalId, SemanticRequestId};

verus! {

/// Execution responsibility, separate from mutation authority.
#[derive(Clone, Copy, Debug, PartialEq, Eq, Structural)]
pub enum WorkerRole {
    Senior,
    Middle,
    Junior,
}

/// Trusted principal authority categories.
#[derive(Clone, Copy, Debug, PartialEq, Eq, Structural)]
pub enum PrincipalRole {
    Reader,
    Worker,
    Coordinator,
    Owner,
    TrustedHost,
}

/// The logical operation performed by an admitted actor.
#[derive(Clone, Copy, Debug, PartialEq, Eq, Structural)]
pub enum OperationRef {
    Command(CommandId),
    Attempt(AttemptId),
    SemanticRequest(SemanticRequestId),
}

/// A nonsecret actor and operation identity used for separation checks.
#[derive(Clone, Copy, Debug, PartialEq, Eq, Structural)]
pub struct ActorRef {
    pub principal_id: PrincipalId,
    pub operation: OperationRef,
    pub role: PrincipalRole,
}

/// The reference under which an authorization was granted.
#[derive(Debug)]
pub struct AuthorizationRef {
    text: String,
}

impl View for AuthorizationRef {
    type V = Seq<char>;

    closed spec fn view(&self) -> Seq<char> {
        self.text@
    }
}

impl Clone for AuthorizationRef {
    fn clone(&self) -> (r: AuthorizationRef)
        ensures
            r@ == self@,
    {
        AuthorizationRef { text: self.text.clone() }
    }
}

impl AuthorizationRef {
    pub fn new(text: &str) -> (r: AuthorizationRef)
        ensures
            r@ == text@,
    {
        AuthorizationRef { text: text.to_owned() }
    }

    pub fn as_str(&self) -> (r: &str)
        ensures
            r@ == self@,
    {
        self.text.as_str()
    }

    pub fn is_empty(&self) -> (r: bool)
        ensures
            r == (self@.len() == 0),
    {
        self.text.as_str().is_empty()
    }
}

/// The admission basis that a privileged action was admitted on.
#[derive(Clone, Copy, Debug, PartialEq, Eq, Structural)]
pub struct ActionAdmissionBasis {
    pub digest: DigestValue,
}

/// The kind of authority recorded by a first-schema event.
#[derive(Debug)]
pub enum AuthorityKindV1 {
    AgentData,
    OwnerControl { class: ControlClass, reference: AuthorizationRef },
    Privileged { action: ActionClass, admission: AdmissionId },
    TrustedObservation { source: ObservationRef, harness: HarnessId },
    ServiceInternal { operation: OperationId },
}

/// The authority recorded by a first-schema event.
#[derive(Debug)]
pub struct AdmittedAuthorityV1 {
    actor: Option<ActorRef>,
    kind: AuthorityKindV1,
}

#[derive(Debug)]
pub enum AuthorityKind {
    AgentData,
    OwnerControl { class: ControlClass, reference: AuthorizationRef },
    Privileged { action: ActionClass, basis: ActionAdmissionBasis },
    Schema1Privileged,
    TrustedObservation { source: ObservationRef, harness: HarnessId },
    ServiceInternal { operation: OperationId },
}

/// Public admitted authority facts whose construction remains service-private.
#[derive(Debug)]
pub struct AdmittedAuthority {
    actor: Option<ActorRef>,
    kind: AuthorityKind,
}

pub ghost enum KindView {
    AgentData,
    OwnerControl { class: ControlClass, reference: Seq<char> },
    Privileged { action: ActionClass, basis: ActionAdmissionBasis },
    Schema1Privileged,
    TrustedObservation { source: ObservationRef, harness: HarnessId },
    ServiceInternal { operation: OperationId },
}

pub ghost enum KindV1View {
    AgentData,
    OwnerControl { class: ControlClass, reference: Seq<char> },
    Privileged { action: ActionClass, admission: AdmissionId },
    TrustedObservation { source: ObservationRef, harness: HarnessId },
    ServiceInternal { operation: OperationId },
}

impl View for AuthorityKind {
    type V = KindView;

    open spec fn view(&self) -> KindView {
        match self {
            AuthorityKind::AgentData => KindView::AgentData,
            AuthorityKind::OwnerControl { class, reference } => KindView::OwnerControl { class: *class, reference: reference@ },
            AuthorityKind::Privileged { action, basis } => KindView::Privileged { action: *action, basis: *basis },
            AuthorityKind::Schema1Privileged => KindView::Schema1Privileged,
            AuthorityKind::TrustedObservation { source, harness } => KindView::TrustedObservation { source: *source, harness: *harness },
            AuthorityKind::ServiceInternal { operation } => KindView::ServiceInternal { operation: *operation },
        }
    }
}

impl View for AuthorityKindV1 {
    type V = KindV1View;

    open spec fn view(&self) -> KindV1View {
        match self {
            AuthorityKindV1::AgentData => KindV1View::AgentData,
            AuthorityKindV1::OwnerControl { class, reference } => KindV1View::OwnerControl { class: *class, reference: reference@ },
            AuthorityKindV1::Privileged { action, admission } => KindV1View::Privileged { action: *action, admission: *admission },
            AuthorityKindV1::TrustedObservation { source, harness } => KindV1View::TrustedObservation { source: *source, harness: *harness },
            AuthorityKindV1::ServiceInternal { operation } => KindV1View::ServiceInternal { operation: *operation },
        }
    }
}

pub ghost struct AuthorityView {
    pub actor: Option<ActorRef>,
    pub kind: KindView,
}

pub ghost struct AuthorityV1View {
    pub actor: Option<ActorRef>,
    pub kind: KindV1View,
}

impl View for AdmittedAuthority {
    type V = AuthorityView;

    closed spec fn view(&self) -> AuthorityView {
        AuthorityView { actor: self.actor, kind: self.kind@ }
    }
}

impl View for AdmittedAuthorityV1 {
    type V = AuthorityV1View;

    closed spec fn view(&self) -> AuthorityV1View {
        AuthorityV1View { actor: self.actor, kind: self.kind@ }
    }
}

/// The runtime kind that a first-schema kind replays as: a privileged
/// admission keeps no basis and becomes `Schema1Privileged`.
pub open spec fn runtime_kind(k: KindV1View) -> KindView {
    match k {
        KindV1View::AgentData => KindView::AgentData,
        KindV1View::OwnerControl { class, reference } => KindView::OwnerControl { class, reference },
        KindV1View::Privileged { .. } => KindView::Schema1Privileged,
        KindV1View::TrustedObservation { source, harness } => KindView::TrustedObservation { source, harness },
        KindV1View::ServiceInternal { operation } => KindView::ServiceInternal { operation },
    }
}

impl AdmittedAuthorityV1 {
    /// The authority as a first-schema event records it.
    pub fn from_parts(actor: Option<ActorRef>, kind: AuthorityKindV1) -> (r: AdmittedAuthorityV1)
        ensures
            r@ == (AuthorityV1View { actor, kind: kind@ }),
    {
        AdmittedAuthorityV1 { actor, kind }
    }

    /// The privileged action and its admission, for a privileged authority.
    pub fn privileged_action(&self) -> (r: Option<(ActionClass, AdmissionId)>)
        ensures
            match self@.kind {
                KindV1View::Privileged { action, admission } => r == Some((action, admission)),
                _ => r is None,
            },
    {
        match &self.kind {
            AuthorityKindV1::Privileged { action, admission } => Some((*action, *admission)),
            _ => None,
        }
    }

    /// The authority as the runtime replays it.
    pub fn to_runtime(&self) -> (r: AdmittedAuthority)
        ensures
            r@ == (AuthorityView { actor: self@.actor, kind: runtime_kind(self@.kind) }),
    {
        let kind = match &self.kind {
            AuthorityKindV1::AgentData => AuthorityKind::AgentData,
            AuthorityKindV1::OwnerControl { class, reference } => AuthorityKind::OwnerControl { class: *class, reference: reference.clone() },
            AuthorityKindV1::Privileged { .. } => AuthorityKind::Schema1Privileged,
            AuthorityKindV1::TrustedObservation { source, harness } => AuthorityKind::TrustedObservation { source: *source, harness: *harness },
            AuthorityKindV1::ServiceInternal { operation } => AuthorityKind::ServiceInternal { operation: *operation },
        };
        AdmittedAuthority { actor: self.actor, kind }
    }
}

impl AdmittedAuthority {
    /// Returns the actor for non-internal admitted operations.
    pub fn actor(&self) -> (r: Option<ActorRef>)
        ensures
            r == self@.actor,
    {
        self.actor
    }

    pub fn owner_control_details(&self) -> (r: Option<(ControlClass, &AuthorizationRef)>)
        ensures
            match self@.kind {
                KindView::OwnerControl { class, reference } => r matches Some(p) && p.0 == class && p.1@ == reference,
                _ => r is None,
            },
    {
        match &self.kind {
            AuthorityKind::OwnerControl { class, reference } => Some((*class, reference)),
            _ => None,
        }
    }

    pub fn privileged_action(&self) -> (r: Option<(ActionClass, ActionAdmissionBasis)>)
        ensures
            match self@.kind {
                KindView::Privileged { action, basis } => r == Some((action, basis)),
                _ => r is None,
            },
    {
        match &self.kind {
            AuthorityKind::Privileged { action, basis } => Some((*action, *basis)),
            _ => None,
        }
    }

    pub fn observation_source(&self) -> (r: Option<ObservationRef>)
        ensures
            match self@.kind {
                KindView::TrustedObservation { source, .. } => r == Some(source),
                _ => r is None,
            },
    {
        match &self.kind {
            AuthorityKind::TrustedObservation { source, .. } => Some(*source),
            _ => None,
        }
    }

    pub fn observation_harness(&self) -> (r: Option<HarnessId>)
        ensures
            match self@.kind {
                KindView::TrustedObservation { harness, .. } => r == Some(harness),
                _ => r is None,
            },
    {
        match &self.kind {
            AuthorityKind::TrustedObservation { harness, .. } => Some(*harness),
            _ => None,
        }
    }

    pub fn service_operation(&self) -> (r: Option<OperationId>)
        ensures
            match self@.kind {
                KindView::ServiceInternal { operation } => r == Some(operation),
                _ => r is None,
            },
    {
        match &self.kind {
            AuthorityKind::ServiceInternal { operation } => Some(*operation),
            _ => None,
        }
    }

    pub fn agent_data(actor: ActorRef) -> (r: AdmittedAuthority)
        ensures
            r@ == (AuthorityView { actor: Some(actor), kind: KindView::AgentData }),
    {
        AdmittedAuthority { actor: Some(actor), kind: AuthorityKind::AgentData }
    }

    pub fn owner_control(actor: ActorRef, class: ControlClass, reference: AuthorizationRef) -> (r: AdmittedAuthority)
        ensures
            r@ == (AuthorityView { actor: Some(actor), kind: KindView::OwnerControl { class, reference: reference@ } }),
    {
        AdmittedAuthority { actor: Some(actor), kind: AuthorityKind::OwnerControl { class, reference } }
    }

    pub fn privileged(actor: ActorRef, action: ActionClass, basis: ActionAdmissionBasis) -> (r: AdmittedAuthority)
        ensures
            r@ == (AuthorityView { actor: Some(actor), kind: KindView::Privileged { action, basis } }),
    {
        AdmittedAuthority { actor: Some(actor), kind: AuthorityKind::Privileged { action, basis } }
    }

    pub fn trusted_observation(actor: ActorRef, source: ObservationRef, harness: HarnessId) -> (r: AdmittedAuthority)
        ensures
            r@ == (AuthorityView { actor: Some(actor), kind: KindView::TrustedObservation { source, harness } }),
    {
        AdmittedAuthority { actor: Some(actor), kind: AuthorityKind::TrustedObservation { source, harness } }
    }

    pub fn service_internal(operation: OperationId) -> (r: AdmittedAuthority)
        ensures
            r@ == (AuthorityView { actor: None, kind: KindView::ServiceInternal { operation } }),
    {
        AdmittedAuthority { actor: None, kind: AuthorityKind::ServiceInternal { operation } }
    }
}

/// A replayed first-schema authority keeps its actor, and every kind but a
/// privileged admission keeps its facts.
pub proof fn law_replay_keeps_authority_facts(v1: AuthorityV1View)
    ensures
        runtime_kind(v1.kind) is Schema1Privileged <==> v1.kind is Privileged,
        v1.kind is OwnerControl ==> runtime_kind(v1.kind) == (KindView::OwnerControl {
            class: v1.kind->OwnerControl_class,
            reference: v1.kind->OwnerControl_reference,
        }),
{
}

} // verus!
