//! Weak bundles for offline work: sealing a bundle manifest and the journal of
//! encounters that an offline worker returns, a hash chain bound to the
//! bundle's attempts.
//!
//! Each binding of a manifest is held by the integers it is ordered and
//! compared by. The canonical digests of a manifest (its encounter genesis)
//! and of a sealed encounter come from the wire codec, which this crate does
//! not hold: they reach these functions as values.
use vstd::prelude::*;

use crate::authority::ActorRef;
use crate::error::{ErrorCode, ZapError};
use crate::keyed::{
    copy_items, distinct_keys, in_key_order, keys_distinct, keys_sorted, lemma_distinct_keys_kept, lemma_found_in_same_items,
    lemma_sorted_same_items_equal, sort_keyed, Keyed,
};
use crate::ids::{
    AttemptId, BundleId, CapabilityObservationId, DigestValue, EncounterId, ForkId, JobId, PacketId, SourceId, StopRuleId,
};

verus! {

/// A packet of the bundle, keyed by its identity.
#[derive(Clone, Copy, Debug, PartialEq, Eq, Structural)]
pub struct BundlePacketBinding {
    pub packet_id: PacketId,
    pub packet_digest: DigestValue,
}

/// The attempt that runs a packet of the bundle, keyed by the packet.
#[derive(Clone, Copy, Debug, PartialEq, Eq, Structural)]
pub struct BundleAttemptBinding {
    pub packet_id: PacketId,
    pub job_id: JobId,
    pub attempt_id: AttemptId,
    pub producer: ActorRef,
}

/// A source capture the bundle carries.
#[derive(Clone, Copy, Debug, PartialEq, Eq, Structural)]
pub struct BundleSourceBinding {
    pub source_id: SourceId,
    pub digest: DigestValue,
}

/// A rule source the bundle carries.
#[derive(Clone, Copy, Debug, PartialEq, Eq, Structural)]
pub struct BundleRuleBinding {
    pub source_id: SourceId,
    pub digest: DigestValue,
}

/// A strategic fork the bundle may select.
#[derive(Clone, Copy, Debug, PartialEq, Eq, Structural)]
pub struct BundleForkBinding {
    pub fork_id: ForkId,
    pub semantic_digest: DigestValue,
}

/// A capability observation the bundle relies on.
#[derive(Clone, Copy, Debug, PartialEq, Eq, Structural)]
pub struct CapabilityBinding {
    pub observation_id: CapabilityObservationId,
}

/// A charter permission the bundle is exported under, by the integer it is
/// ordered by.
#[derive(Clone, Copy, Debug, PartialEq, Eq, Structural)]
pub struct CharterPermissionBinding {
    pub permission: u64,
}

/// A stop rule the offline worker must honour.
#[derive(Clone, Copy, Debug, PartialEq, Eq, Structural)]
pub struct StopRuleBinding {
    pub stop_rule_id: StopRuleId,
    pub digest: DigestValue,
}

/// An archive entry of the bundle, by the integer it is ordered by, and its
/// length in bytes.
#[derive(Clone, Copy, Debug, PartialEq, Eq, Structural)]
pub struct BundleEntryBinding {
    pub entry: u64,
    pub byte_len: u64,
}

impl Keyed for BundlePacketBinding {
    open spec fn key_of(&self) -> (u64, u64) {
        (self.packet_id.0, 0)
    }

    fn key(&self) -> (r: (u64, u64)) {
        (self.packet_id.0, 0)
    }
}

impl Keyed for BundleAttemptBinding {
    open spec fn key_of(&self) -> (u64, u64) {
        (self.packet_id.0, 0)
    }

    fn key(&self) -> (r: (u64, u64)) {
        (self.packet_id.0, 0)
    }
}

impl Keyed for BundleSourceBinding {
    open spec fn key_of(&self) -> (u64, u64) {
        (self.source_id.0, self.digest.0)
    }

    fn key(&self) -> (r: (u64, u64)) {
        (self.source_id.0, self.digest.0)
    }
}

impl Keyed for BundleRuleBinding {
    open spec fn key_of(&self) -> (u64, u64) {
        (self.source_id.0, self.digest.0)
    }

    fn key(&self) -> (r: (u64, u64)) {
        (self.source_id.0, self.digest.0)
    }
}

impl Keyed for BundleForkBinding {
    open spec fn key_of(&self) -> (u64, u64) {
        (self.fork_id.0, self.semantic_digest.0)
    }

    fn key(&self) -> (r: (u64, u64)) {
        (self.fork_id.0, self.semantic_digest.0)
    }
}

impl Keyed for CapabilityBinding {
    open spec fn key_of(&self) -> (u64, u64) {
        (self.observation_id.0, 0)
    }

    fn key(&self) -> (r: (u64, u64)) {
        (self.observation_id.0, 0)
    }
}

impl Keyed for CharterPermissionBinding {
    open spec fn key_of(&self) -> (u64, u64) {
        (self.permission, 0)
    }

    fn key(&self) -> (r: (u64, u64)) {
        (self.permission, 0)
    }
}

impl Keyed for StopRuleBinding {
    open spec fn key_of(&self) -> (u64, u64) {
        (self.stop_rule_id.0, self.digest.0)
    }

    fn key(&self) -> (r: (u64, u64)) {
        (self.stop_rule_id.0, self.digest.0)
    }
}

impl Keyed for BundleEntryBinding {
    open spec fn key_of(&self) -> (u64, u64) {
        (self.entry, self.byte_len)
    }

    fn key(&self) -> (r: (u64, u64)) {
        (self.entry, self.byte_len)
    }
}

/// What a weak bundle exports: its packets and their attempts, the sources,
/// rules, forks, capabilities, permissions and stop rules they rest on, the
/// archive entries, and the bounds of the archive and of the returned delta.
#[derive(Debug)]
pub struct WeakBundleManifest {
    pub bundle_id: BundleId,
    pub packets: Vec<BundlePacketBinding>,
    pub attempts: Vec<BundleAttemptBinding>,
    pub sources: Vec<BundleSourceBinding>,
    pub rules: Vec<BundleRuleBinding>,
    pub forks: Vec<BundleForkBinding>,
    pub capabilities: Vec<CapabilityBinding>,
    pub permissions: Vec<CharterPermissionBinding>,
    pub stop_rules: Vec<StopRuleBinding>,
    pub entries: Vec<BundleEntryBinding>,
    pub maximum_archive_bytes: u64,
    pub maximum_encounters: u32,
    pub maximum_return_bytes: u64,
    pub encounter_genesis: DigestValue,
    pub digest: DigestValue,
}

/// The total length of the archive entries.
pub open spec fn entry_bytes(s: Seq<BundleEntryBinding>) -> int
    decreases s.len(),
{
    if s.len() == 0 {
        0
    } else {
        entry_bytes(s.drop_last()) + s.last().byte_len
    }
}

proof fn lemma_entry_bytes_monotone(s: Seq<BundleEntryBinding>, i: int, j: int)
    requires
        0 <= i <= j <= s.len(),
    ensures
        entry_bytes(s.take(i)) <= entry_bytes(s.take(j)),
    decreases j - i,
{
    if i < j {
        lemma_entry_bytes_monotone(s, i, j - 1);
        assert(s.take(j).drop_last() =~= s.take(j - 1));
    }
}

/// Some attempt runs the packet.
pub open spec fn attempted(attempts: Seq<BundleAttemptBinding>, packet_id: PacketId) -> bool {
    exists|j: int| 0 <= j < attempts.len() && (#[trigger] attempts[j]).packet_id == packet_id
}

/// Every packet has an attempt.
pub open spec fn packets_attempted(packets: Seq<BundlePacketBinding>, attempts: Seq<BundleAttemptBinding>) -> bool {
    forall|i: int| 0 <= i < packets.len() ==> attempted(attempts, (#[trigger] packets[i]).packet_id)
}

impl WeakBundleManifest {
    /// The closure and bounds a sealed manifest keeps: at least one packet,
    /// one attempt per packet, no binding twice, at least one permission,
    /// capability and entry, positive bounds, and entries of positive length
    /// that fit the archive.
    pub open spec fn closure_valid(&self) -> bool {
        &&& self.packets@.len() > 0
        &&& keys_distinct(self.packets@)
        &&& keys_distinct(self.attempts@)
        &&& keys_distinct(self.sources@)
        &&& keys_distinct(self.rules@)
        &&& keys_distinct(self.forks@)
        &&& keys_distinct(self.capabilities@)
        &&& keys_distinct(self.permissions@)
        &&& keys_distinct(self.stop_rules@)
        &&& keys_distinct(self.entries@)
        &&& self.packets@.len() == self.attempts@.len()
        &&& packets_attempted(self.packets@, self.attempts@)
        &&& self.permissions@.len() > 0
        &&& self.capabilities@.len() > 0
        &&& self.entries@.len() > 0
        &&& self.maximum_archive_bytes > 0
        &&& self.maximum_encounters > 0
        &&& self.maximum_return_bytes > 0
        &&& (forall|i: int| 0 <= i < self.entries@.len() ==> (#[trigger] self.entries@[i]).byte_len > 0)
        &&& entry_bytes(self.entries@) <= self.maximum_archive_bytes
    }

    /// Every list of the manifest is in key order.
    pub open spec fn ordered(&self) -> bool {
        &&& keys_sorted(self.packets@)
        &&& keys_sorted(self.attempts@)
        &&& keys_sorted(self.sources@)
        &&& keys_sorted(self.rules@)
        &&& keys_sorted(self.forks@)
        &&& keys_sorted(self.capabilities@)
        &&& keys_sorted(self.permissions@)
        &&& keys_sorted(self.stop_rules@)
        &&& keys_sorted(self.entries@)
    }

    /// A manifest as sealing leaves it.
    pub open spec fn sealed(&self) -> bool {
        self.ordered() && self.closure_valid()
    }

    fn entries_fit(&self) -> (r: bool)
        ensures
            r == ((forall|i: int| 0 <= i < self.entries@.len() ==> (#[trigger] self.entries@[i]).byte_len > 0)
                && entry_bytes(self.entries@) <= self.maximum_archive_bytes),
    {
        let ghost s = self.entries@;
        let mut total: u64 = 0;
        let mut i: usize = 0;
        proof {
            assert(s.take(0) =~= Seq::<BundleEntryBinding>::empty());
        }
        while i < self.entries.len()
            invariant
                s == self.entries@,
                i <= s.len(),
                total == entry_bytes(s.take(i as int)),
                forall|k: int| 0 <= k < i ==> (#[trigger] s[k]).byte_len > 0,
            decreases s.len() - i,
        {
            let e = self.entries[i];
            proof {
                assert(s.take(i as int + 1).drop_last() =~= s.take(i as int));
            }
            if e.byte_len == 0 {
                return false;
            }
            match total.checked_add(e.byte_len) {
                Some(t) => {
                    total = t;
                },
                None => {
                    proof {
                        lemma_entry_bytes_monotone(s, i as int + 1, s.len() as int);
                        assert(s.take(s.len() as int) =~= s);
                    }
                    return false;
                },
            }
            i += 1;
        }
        proof {
            assert(s.take(s.len() as int) =~= s);
        }
        total <= self.maximum_archive_bytes
    }

    fn every_packet_attempted(&self) -> (r: bool)
        ensures
            r == packets_attempted(self.packets@, self.attempts@),
    {
        let mut i: usize = 0;
        while i < self.packets.len()
            invariant
                i <= self.packets@.len(),
                forall|k: int| 0 <= k < i ==> attempted(self.attempts@, (#[trigger] self.packets@[k]).packet_id),
            decreases self.packets@.len() - i,
        {
            let id = self.packets[i].packet_id;
            let mut found = false;
            let mut j: usize = 0;
            while j < self.attempts.len()
                invariant
                    j <= self.attempts@.len(),
                    i < self.packets@.len(),
                    id == self.packets@[i as int].packet_id,
                    found ==> exists|a: int| 0 <= a < self.attempts@.len() && (#[trigger] self.attempts@[a]).packet_id == id,
                    !found ==> forall|a: int| 0 <= a < j ==> (#[trigger] self.attempts@[a]).packet_id != id,
                decreases self.attempts@.len() - j,
            {
                if self.attempts[j].packet_id.0 == id.0 {
                    found = true;
                }
                j += 1;
            }
            if !found {
                assert(!attempted(self.attempts@, self.packets@[i as int].packet_id));
                return false;
            }
            i += 1;
        }
        true
    }

    fn check_closure(&self) -> (r: bool)
        ensures
            r == self.closure_valid(),
    {
        self.packets.len() > 0 && distinct_keys(&self.packets) && distinct_keys(&self.attempts) && distinct_keys(&self.sources)
            && distinct_keys(&self.rules) && distinct_keys(&self.forks) && distinct_keys(&self.capabilities)
            && distinct_keys(&self.permissions) && distinct_keys(&self.stop_rules) && distinct_keys(&self.entries)
            && self.packets.len() == self.attempts.len() && self.every_packet_attempted() && self.permissions.len() > 0
            && self.capabilities.len() > 0 && self.entries.len() > 0 && self.maximum_archive_bytes > 0
            && self.maximum_encounters > 0 && self.maximum_return_bytes > 0 && self.entries_fit()
    }

    /// Whether the manifest is sealed: in key order and within its closure
    /// and bounds.
    pub fn is_sealed(&self) -> (r: bool)
        ensures
            r == self.sealed(),
    {
        in_key_order(&self.packets) && in_key_order(&self.attempts) && in_key_order(&self.sources) && in_key_order(&self.rules)
            && in_key_order(&self.forks) && in_key_order(&self.capabilities) && in_key_order(&self.permissions)
            && in_key_order(&self.stop_rules) && in_key_order(&self.entries) && self.check_closure()
    }

    /// Puts every list of the manifest in key order, the form whose
    /// canonical encoding the wire codec digests; a manifest outside its
    /// closure or bounds is refused. Its digests are left as they were.
    pub fn order_bindings(self) -> (r: Result<WeakBundleManifest, ZapError>)
        ensures
            r is Ok <==> self.closure_valid(),
            r matches Err(e) ==> e.code == ErrorCode::InvalidValue,
            r matches Ok(m) ==> seals_to(self, m) && m.sealed() && m.encounter_genesis == self.encounter_genesis
                && m.digest == self.digest,
    {
        if !self.check_closure() {
            return Err(ZapError::new(ErrorCode::InvalidValue));
        }
        let WeakBundleManifest {
            bundle_id,
            packets,
            attempts,
            sources,
            rules,
            forks,
            capabilities,
            permissions,
            stop_rules,
            entries,
            maximum_archive_bytes,
            maximum_encounters,
            maximum_return_bytes,
            encounter_genesis,
            digest,
        } = self;
        let ghost before = self;
        let sealed = WeakBundleManifest {
            bundle_id,
            packets: sort_keyed(packets),
            attempts: sort_keyed(attempts),
            sources: sort_keyed(sources),
            rules: sort_keyed(rules),
            forks: sort_keyed(forks),
            capabilities: sort_keyed(capabilities),
            permissions: sort_keyed(permissions),
            stop_rules: sort_keyed(stop_rules),
            entries: sort_keyed(entries),
            maximum_archive_bytes,
            maximum_encounters,
            maximum_return_bytes,
            encounter_genesis,
            digest,
        };
        proof {
            lemma_closure_kept(before, sealed);
        }
        Ok(sealed)
    }

    /// Seals the manifest: every list is put in key order, and the manifest
    /// takes the encounter genesis and the manifest digest that the wire
    /// codec computes over that ordered form (as `order_bindings` gives it);
    /// a manifest outside its closure or bounds is refused.
    pub fn seal(self, encounter_genesis: DigestValue, digest: DigestValue) -> (r: Result<WeakBundleManifest, ZapError>)
        ensures
            r is Ok <==> self.closure_valid(),
            r matches Err(e) ==> e.code == ErrorCode::InvalidValue,
            r matches Ok(m) ==> seals_to(self, m) && m.sealed() && m.encounter_genesis == encounter_genesis
                && m.digest == digest,
    {
        let mut sealed = self.order_bindings()?;
        sealed.encounter_genesis = encounter_genesis;
        sealed.digest = digest;
        Ok(sealed)
    }
}

/// Two manifests hold the same bindings in every list, in whatever order,
/// and the same identity and bounds.
pub open spec fn same_bindings(a: WeakBundleManifest, b: WeakBundleManifest) -> bool {
    &&& a.packets@.to_multiset() == b.packets@.to_multiset()
    &&& a.attempts@.to_multiset() == b.attempts@.to_multiset()
    &&& a.sources@.to_multiset() == b.sources@.to_multiset()
    &&& a.rules@.to_multiset() == b.rules@.to_multiset()
    &&& a.forks@.to_multiset() == b.forks@.to_multiset()
    &&& a.capabilities@.to_multiset() == b.capabilities@.to_multiset()
    &&& a.permissions@.to_multiset() == b.permissions@.to_multiset()
    &&& a.stop_rules@.to_multiset() == b.stop_rules@.to_multiset()
    &&& a.entries@.to_multiset() == b.entries@.to_multiset()
    &&& a.bundle_id == b.bundle_id
    &&& a.maximum_archive_bytes == b.maximum_archive_bytes
    &&& a.maximum_encounters == b.maximum_encounters
    &&& a.maximum_return_bytes == b.maximum_return_bytes
}

/// Two manifests hold the same lists in the same order, and the same
/// identity and bounds.
pub open spec fn same_lists(a: WeakBundleManifest, b: WeakBundleManifest) -> bool {
    &&& a.packets@ == b.packets@
    &&& a.attempts@ == b.attempts@
    &&& a.sources@ == b.sources@
    &&& a.rules@ == b.rules@
    &&& a.forks@ == b.forks@
    &&& a.capabilities@ == b.capabilities@
    &&& a.permissions@ == b.permissions@
    &&& a.stop_rules@ == b.stop_rules@
    &&& a.entries@ == b.entries@
    &&& a.bundle_id == b.bundle_id
    &&& a.maximum_archive_bytes == b.maximum_archive_bytes
    &&& a.maximum_encounters == b.maximum_encounters
    &&& a.maximum_return_bytes == b.maximum_return_bytes
}

/// What sealing `m` gives: its bindings, identity and bounds, every list
/// in key order.
pub open spec fn seals_to(m: WeakBundleManifest, s: WeakBundleManifest) -> bool {
    s.ordered() && same_bindings(m, s)
}

proof fn lemma_entry_bytes_remove(s: Seq<BundleEntryBinding>, k: int)
    requires
        0 <= k < s.len(),
    ensures
        entry_bytes(s) == entry_bytes(s.remove(k)) + s[k].byte_len,
    decreases s.len(),
{
    if k == s.len() - 1 {
        assert(s.remove(k) =~= s.drop_last());
    } else {
        lemma_entry_bytes_remove(s.drop_last(), k);
        assert(s.remove(k).drop_last() =~= s.drop_last().remove(k));
        assert(s.remove(k).last() == s.last());
    }
}

proof fn lemma_entry_bytes_same_items(x: Seq<BundleEntryBinding>, y: Seq<BundleEntryBinding>)
    requires
        x.to_multiset() == y.to_multiset(),
    ensures
        entry_bytes(x) == entry_bytes(y),
    decreases x.len(),
{
    vstd::seq_lib::to_multiset_len(x);
    vstd::seq_lib::to_multiset_len(y);
    if x.len() > 0 {
        let n = x.len() - 1;
        let k = lemma_found_in_same_items(x, y, n);
        vstd::seq_lib::to_multiset_remove(x, n);
        vstd::seq_lib::to_multiset_remove(y, k);
        assert(x.remove(n) =~= x.drop_last());
        lemma_entry_bytes_same_items(x.drop_last(), y.remove(k));
        lemma_entry_bytes_remove(y, k);
    }
}

proof fn lemma_closure_kept(a: WeakBundleManifest, b: WeakBundleManifest)
    requires
        a.closure_valid(),
        same_bindings(a, b),
    ensures
        b.closure_valid(),
{
    vstd::seq_lib::to_multiset_len(a.packets@);
    vstd::seq_lib::to_multiset_len(b.packets@);
    vstd::seq_lib::to_multiset_len(a.attempts@);
    vstd::seq_lib::to_multiset_len(b.attempts@);
    vstd::seq_lib::to_multiset_len(a.permissions@);
    vstd::seq_lib::to_multiset_len(b.permissions@);
    vstd::seq_lib::to_multiset_len(a.capabilities@);
    vstd::seq_lib::to_multiset_len(b.capabilities@);
    vstd::seq_lib::to_multiset_len(a.entries@);
    vstd::seq_lib::to_multiset_len(b.entries@);
    lemma_distinct_keys_kept(a.packets@, b.packets@);
    lemma_distinct_keys_kept(a.attempts@, b.attempts@);
    lemma_distinct_keys_kept(a.sources@, b.sources@);
    lemma_distinct_keys_kept(a.rules@, b.rules@);
    lemma_distinct_keys_kept(a.forks@, b.forks@);
    lemma_distinct_keys_kept(a.capabilities@, b.capabilities@);
    lemma_distinct_keys_kept(a.permissions@, b.permissions@);
    lemma_distinct_keys_kept(a.stop_rules@, b.stop_rules@);
    lemma_distinct_keys_kept(a.entries@, b.entries@);
    assert forall|i: int| 0 <= i < b.packets@.len() implies attempted(b.attempts@, (#[trigger] b.packets@[i]).packet_id) by {
        let p = lemma_found_in_same_items(b.packets@, a.packets@, i);
        assert(attempted(a.attempts@, a.packets@[p].packet_id));
        let j = choose|j: int| 0 <= j < a.attempts@.len() && (#[trigger] a.attempts@[j]).packet_id == a.packets@[p].packet_id;
        let k = lemma_found_in_same_items(a.attempts@, b.attempts@, j);
        assert(b.attempts@[k].packet_id == b.packets@[i].packet_id);
    }
    assert forall|i: int| 0 <= i < b.entries@.len() implies (#[trigger] b.entries@[i]).byte_len > 0 by {
        let p = lemma_found_in_same_items(b.entries@, a.entries@, i);
        assert(a.entries@[p].byte_len > 0);
    }
    lemma_entry_bytes_same_items(a.entries@, b.entries@);
}

proof fn lemma_sealed_lists_agree(a: WeakBundleManifest, b: WeakBundleManifest)
    requires
        a.sealed(),
        b.ordered(),
        same_bindings(a, b),
    ensures
        same_lists(a, b),
{
    lemma_sorted_same_items_equal(a.packets@, b.packets@);
    lemma_sorted_same_items_equal(a.attempts@, b.attempts@);
    lemma_sorted_same_items_equal(a.sources@, b.sources@);
    lemma_sorted_same_items_equal(a.rules@, b.rules@);
    lemma_sorted_same_items_equal(a.forks@, b.forks@);
    lemma_sorted_same_items_equal(a.capabilities@, b.capabilities@);
    lemma_sorted_same_items_equal(a.permissions@, b.permissions@);
    lemma_sorted_same_items_equal(a.stop_rules@, b.stop_rules@);
    lemma_sorted_same_items_equal(a.entries@, b.entries@);
}

/// Sealing does not depend on the order of a manifest's lists: manifests
/// with the same bindings, identity and bounds are both within their
/// closure and bounds or both outside them, and where they are within, they
/// seal to the same lists.
pub proof fn law_seal_ignores_list_order(m1: WeakBundleManifest, m2: WeakBundleManifest, s1: WeakBundleManifest, s2: WeakBundleManifest)
    requires
        same_bindings(m1, m2),
    ensures
        m1.closure_valid() <==> m2.closure_valid(),
        m1.closure_valid() && seals_to(m1, s1) && seals_to(m2, s2) ==> same_lists(s1, s2),
{
    if m1.closure_valid() {
        lemma_closure_kept(m1, m2);
    }
    if m2.closure_valid() {
        lemma_closure_kept(m2, m1);
    }
    if m1.closure_valid() && seals_to(m1, s1) && seals_to(m2, s2) {
        lemma_closure_kept(m1, s1);
        lemma_sealed_lists_agree(s1, s2);
    }
}

/// Sealing a sealed manifest leaves its lists, identity and bounds
/// unchanged.
pub proof fn law_seal_is_idempotent(m: WeakBundleManifest, s: WeakBundleManifest, again: WeakBundleManifest)
    requires
        m.closure_valid(),
        seals_to(m, s),
    ensures
        s.sealed(),
        seals_to(s, again) ==> same_lists(s, again),
{
    lemma_closure_kept(m, s);
    if seals_to(s, again) {
        lemma_sealed_lists_agree(s, again);
    }
}


/// What an encounter records; only a fork selection names a fork.
#[derive(Clone, Copy, Debug, PartialEq, Eq, Structural)]
pub enum EncounterKind {
    ForkSelected,
    /// Any encounter other than a fork selection.
    Other,
}

/// One encounter of an offline worker: its place in the chain, the attempt
/// it belongs to, the encounters that caused it, and its digest.
#[derive(Debug)]
pub struct OfflineEncounter {
    pub encounter_id: EncounterId,
    pub sequence: u32,
    pub previous_digest: DigestValue,
    pub job_id: JobId,
    pub attempt_id: AttemptId,
    pub packet_id: PacketId,
    pub producer: ActorRef,
    pub kind: EncounterKind,
    pub selected_fork: Option<ForkId>,
    pub causes: Vec<EncounterId>,
    pub digest: DigestValue,
}

pub ghost struct EncounterView {
    pub encounter_id: EncounterId,
    pub sequence: u32,
    pub previous_digest: DigestValue,
    pub job_id: JobId,
    pub attempt_id: AttemptId,
    pub packet_id: PacketId,
    pub producer: ActorRef,
    pub kind: EncounterKind,
    pub selected_fork: Option<ForkId>,
    pub causes: Seq<EncounterId>,
    pub digest: DigestValue,
}

impl View for OfflineEncounter {
    type V = EncounterView;

    open spec fn view(&self) -> EncounterView {
        EncounterView {
            encounter_id: self.encounter_id,
            sequence: self.sequence,
            previous_digest: self.previous_digest,
            job_id: self.job_id,
            attempt_id: self.attempt_id,
            packet_id: self.packet_id,
            producer: self.producer,
            kind: self.kind,
            selected_fork: self.selected_fork,
            causes: self.causes@,
            digest: self.digest,
        }
    }
}

impl Clone for OfflineEncounter {
    fn clone(&self) -> (r: OfflineEncounter)
        ensures
            r@ == self@,
    {
        OfflineEncounter {
            encounter_id: self.encounter_id,
            sequence: self.sequence,
            previous_digest: self.previous_digest,
            job_id: self.job_id,
            attempt_id: self.attempt_id,
            packet_id: self.packet_id,
            producer: self.producer,
            kind: self.kind,
            selected_fork: self.selected_fork,
            causes: copy_items(&self.causes),
            digest: self.digest,
        }
    }
}

/// What the wire codec computes of a submitted encounter: the digest of its
/// sealed form and the length of its canonical encoding.
#[derive(Clone, Copy, Debug, PartialEq, Eq, Structural)]
pub struct EncounterSeal {
    pub digest: DigestValue,
    pub encoded_bytes: u64,
}

pub open spec fn encounter_views(v: Seq<OfflineEncounter>) -> Seq<EncounterView> {
    v.map_values(|e: OfflineEncounter| e@)
}

/// An earlier encounter of the chain, before position `upto`, has the id.
pub open spec fn recorded_before(es: Seq<EncounterView>, upto: int, id: EncounterId) -> bool {
    exists|k: int| 0 <= k < upto && (#[trigger] es[k]).encounter_id == id
}

/// Every cause names an encounter recorded before position `upto`.
pub open spec fn causes_recorded_before(es: Seq<EncounterView>, upto: int, causes: Seq<EncounterId>) -> bool {
    forall|m: int| 0 <= m < causes.len() ==> recorded_before(es, upto, #[trigger] causes[m])
}

/// The encounter at `i` links to the digest of the one before it.
pub open spec fn links_back(es: Seq<EncounterView>, i: int) -> bool {
    es[i].previous_digest == es[i - 1].digest
}

/// The encounters form a hash chain from the genesis digest: each is
/// numbered by its place, links to the digest before it, and is caused only
/// by encounters before it.
pub open spec fn chained(es: Seq<EncounterView>, genesis: DigestValue) -> bool {
    &&& forall|i: int| 0 <= i < es.len() ==> (#[trigger] es[i]).sequence == i
    &&& (es.len() > 0 ==> es[0].previous_digest == genesis)
    &&& forall|i: int| 0 < i < es.len() ==> #[trigger] links_back(es, i)
    &&& forall|i: int, m: int| 0 <= i < es.len() && 0 <= m < es[i].causes.len() ==> recorded_before(es, i, #[trigger] es[i].causes[m])
}

/// The digest a chain ends at.
pub open spec fn chain_head(es: Seq<EncounterView>, genesis: DigestValue) -> DigestValue {
    if es.len() == 0 { genesis } else { es.last().digest }
}

/// The first attempt of the bundle that runs the job.
pub open spec fn first_attempt(attempts: Seq<BundleAttemptBinding>, job_id: JobId) -> Option<BundleAttemptBinding>
    decreases attempts.len(),
{
    if attempts.len() == 0 {
        None
    } else if attempts[0].job_id == job_id {
        Some(attempts[0])
    } else {
        first_attempt(attempts.drop_first(), job_id)
    }
}

/// A fork selection names a fork of the bundle; any other encounter names none.
pub open spec fn fork_choice_valid(e: EncounterView, forks: Seq<BundleForkBinding>) -> bool {
    match e.kind {
        EncounterKind::ForkSelected => e.selected_fork matches Some(f) && exists|k: int| 0 <= k < forks.len() && (#[trigger] forks[k]).fork_id == f,
        EncounterKind::Other => e.selected_fork is None,
    }
}

pub ghost struct JournalView {
    pub bundle_id: BundleId,
    pub manifest_digest: DigestValue,
    pub genesis: DigestValue,
    pub attempts: Seq<BundleAttemptBinding>,
    pub forks: Seq<BundleForkBinding>,
    pub maximum_encounters: u32,
    pub maximum_return_bytes: u64,
    pub encounters: Seq<EncounterView>,
    pub previous: DigestValue,
    pub encoded_bytes: u64,
}

/// Whether the journal takes the encounter: it belongs to an attempt of the
/// bundle, continues the chain, names only earlier causes and a fork of the
/// bundle, its digest is the sealed one, and the delta stays within its
/// bounds.
pub open spec fn accepts(j: JournalView, e: EncounterView, seal: EncounterSeal) -> bool {
    &&& first_attempt(j.attempts, e.job_id) matches Some(a)
    &&& e.sequence == j.encounters.len()
    &&& e.previous_digest == j.previous
    &&& e.attempt_id == a.attempt_id
    &&& e.packet_id == a.packet_id
    &&& e.producer == a.producer
    &&& causes_recorded_before(j.encounters, j.encounters.len() as int, e.causes)
    &&& fork_choice_valid(e, j.forks)
    &&& e.digest == seal.digest
    &&& j.encounters.len() < j.maximum_encounters
    &&& j.encoded_bytes + seal.encoded_bytes <= j.maximum_return_bytes
}

/// The journal after it takes the encounter.
pub open spec fn appended(j: JournalView, e: EncounterView, seal: EncounterSeal) -> JournalView {
    JournalView {
        encounters: j.encounters.push(e),
        previous: seal.digest,
        encoded_bytes: (j.encoded_bytes + seal.encoded_bytes) as u64,
        ..j
    }
}

/// The journal that a sealed manifest starts.
pub open spec fn journal_start(m: WeakBundleManifest) -> JournalView {
    JournalView {
        bundle_id: m.bundle_id,
        manifest_digest: m.digest,
        genesis: m.encounter_genesis,
        attempts: m.attempts@,
        forks: m.forks@,
        maximum_encounters: m.maximum_encounters,
        maximum_return_bytes: m.maximum_return_bytes,
        encounters: Seq::empty(),
        previous: m.encounter_genesis,
        encoded_bytes: 0,
    }
}

proof fn lemma_append_keeps_chain(j: JournalView, e: EncounterView, seal: EncounterSeal)
    requires
        journal_valid(j),
        accepts(j, e, seal),
    ensures
        journal_valid(appended(j, e, seal)),
{
    let es = j.encounters.push(e);
    assert forall|i: int, m: int| 0 <= i < es.len() && 0 <= m < es[i].causes.len() implies recorded_before(es, i, #[trigger] es[i].causes[m]) by {
        if i < es.len() - 1 {
            assert(es[i] == j.encounters[i]);
            assert(recorded_before(j.encounters, i, j.encounters[i].causes[m]));
            let w = choose|k: int| 0 <= k < i && (#[trigger] j.encounters[k]).encounter_id == es[i].causes[m];
            assert(es[w] == j.encounters[w]);
        } else {
            assert(es[i] == e);
            assert(recorded_before(j.encounters, j.encounters.len() as int, e.causes[m]));
            let w = choose|k: int| 0 <= k < j.encounters.len() && (#[trigger] j.encounters[k]).encounter_id == e.causes[m];
            assert(es[w] == j.encounters[w]);
        }
    }
    assert forall|i: int| 0 < i < es.len() implies #[trigger] links_back(es, i) by {
        if i == es.len() - 1 {
            assert(es[i] == e);
            assert(es[i - 1] == j.encounters.last());
        } else {
            assert(links_back(j.encounters, i));
            assert(es[i] == j.encounters[i]);
            assert(es[i - 1] == j.encounters[i - 1]);
        }
    }
    assert forall|i: int| 0 <= i < es.len() implies (#[trigger] es[i]).sequence == i by {
        if i < es.len() - 1 {
            assert(es[i] == j.encounters[i]);
        }
    }
}

/// The journal of an offline worker's encounters against one sealed bundle.
pub struct OfflineEncounterJournal {
    bundle_id: BundleId,
    manifest_digest: DigestValue,
    genesis: DigestValue,
    attempts: Vec<BundleAttemptBinding>,
    forks: Vec<BundleForkBinding>,
    maximum_encounters: u32,
    maximum_return_bytes: u64,
    chain: EncounterChain,
}

/// The encounters a journal holds, the digest its chain ends at, and the
/// length of their encodings.
struct EncounterChain {
    encounters: Vec<OfflineEncounter>,
    previous: DigestValue,
    encoded_bytes: u64,
}

impl View for OfflineEncounterJournal {
    type V = JournalView;

    closed spec fn view(&self) -> JournalView {
        JournalView {
            bundle_id: self.bundle_id,
            manifest_digest: self.manifest_digest,
            genesis: self.genesis,
            attempts: self.attempts@,
            forks: self.forks@,
            maximum_encounters: self.maximum_encounters,
            maximum_return_bytes: self.maximum_return_bytes,
            encounters: encounter_views(self.chain.encounters@),
            previous: self.chain.previous,
            encoded_bytes: self.chain.encoded_bytes,
        }
    }
}

/// A journal opens on the manifest: it is sealed and carries the digest of
/// its canonical encoding.
pub open spec fn opens_journal(m: WeakBundleManifest, manifest_digest: DigestValue) -> bool {
    m.sealed() && m.digest == manifest_digest
}

/// A journal holds a chain from its genesis that ends at its previous
/// digest, within the bundle's bounds.
pub open spec fn journal_valid(j: JournalView) -> bool {
    &&& chained(j.encounters, j.genesis)
    &&& j.previous == chain_head(j.encounters, j.genesis)
    &&& j.encounters.len() <= j.maximum_encounters
    &&& j.encoded_bytes <= j.maximum_return_bytes
}

impl OfflineEncounterJournal {
    #[verifier::type_invariant]
    spec fn inv(self) -> bool {
        journal_valid(self@)
    }

    /// Starts a journal against a sealed manifest, given the digest of the
    /// manifest's canonical encoding: a manifest that is not sealed, or whose
    /// digest is not that one, is refused.
    pub fn new(manifest: &WeakBundleManifest, manifest_digest: DigestValue) -> (r: Result<OfflineEncounterJournal, ZapError>)
        ensures
            r is Ok <==> opens_journal(*manifest, manifest_digest),
            r matches Ok(j) ==> j@ == journal_start(*manifest) && journal_valid(j@),
            r matches Err(e) ==> e.code == ErrorCode::InvalidValue,
    {
        if manifest_digest.0 != manifest.digest.0 || !manifest.is_sealed() {
            return Err(ZapError::new(ErrorCode::InvalidValue));
        }
        let j = OfflineEncounterJournal {
            bundle_id: manifest.bundle_id,
            manifest_digest: manifest.digest,
            genesis: manifest.encounter_genesis,
            attempts: copy_items(&manifest.attempts),
            forks: copy_items(&manifest.forks),
            maximum_encounters: manifest.maximum_encounters,
            maximum_return_bytes: manifest.maximum_return_bytes,
            chain: EncounterChain { encounters: Vec::new(), previous: manifest.encounter_genesis, encoded_bytes: 0 },
        };
        assert(j@.encounters =~= Seq::<EncounterView>::empty());
        Ok(j)
    }

    fn find_attempt(&self, job_id: JobId) -> (r: Option<BundleAttemptBinding>)
        ensures
            r == first_attempt(self@.attempts, job_id),
    {
        let ghost s = self.attempts@;
        let mut i: usize = 0;
        assert(s.skip(0) =~= s);
        while i < self.attempts.len()
            invariant
                i <= s.len(),
                s == self@.attempts,
                first_attempt(s.skip(i as int), job_id) == first_attempt(s, job_id),
            decreases s.len() - i,
        {
            proof {
                assert(s.skip(i as int).drop_first() =~= s.skip(i as int + 1));
            }
            if self.attempts[i].job_id.0 == job_id.0 {
                return Some(self.attempts[i]);
            }
            i += 1;
        }
        None
    }

    fn causes_recorded(&self, causes: &Vec<EncounterId>) -> (r: bool)
        ensures
            r == causes_recorded_before(self@.encounters, self@.encounters.len() as int, causes@),
    {
        let ghost es = self@.encounters;
        let mut m: usize = 0;
        while m < causes.len()
            invariant
                m <= causes@.len(),
                es == self@.encounters,
                es == encounter_views(self.chain.encounters@),
                forall|x: int| 0 <= x < m ==> recorded_before(es, es.len() as int, #[trigger] causes@[x]),
            decreases causes@.len() - m,
        {
            let id = causes[m];
            let mut found = false;
            let mut k: usize = 0;
            while k < self.chain.encounters.len()
                invariant
                    k <= self.chain.encounters@.len(),
                    es == encounter_views(self.chain.encounters@),
                    found ==> recorded_before(es, es.len() as int, id),
                    !found ==> forall|y: int| 0 <= y < k ==> (#[trigger] es[y]).encounter_id != id,
                decreases self.chain.encounters@.len() - k,
            {
                if self.chain.encounters[k].encounter_id.0 == id.0 {
                    assert(es[k as int].encounter_id == id);
                    found = true;
                }
                k += 1;
            }
            if !found {
                assert(!recorded_before(es, es.len() as int, causes@[m as int]));
                return false;
            }
            m += 1;
        }
        true
    }

    fn fork_known(&self, e: &OfflineEncounter) -> (r: bool)
        ensures
            r == fork_choice_valid(e@, self@.forks),
    {
        match e.kind {
            EncounterKind::ForkSelected => match e.selected_fork {
                Some(f) => {
                    let mut k: usize = 0;
                    while k < self.forks.len()
                        invariant
                            k <= self.forks@.len(),
                            e.kind == EncounterKind::ForkSelected,
                            e.selected_fork == Some(f),
                            forall|y: int| 0 <= y < k ==> (#[trigger] self.forks@[y]).fork_id != f,
                        decreases self.forks@.len() - k,
                    {
                        if self.forks[k].fork_id.0 == f.0 {
                            assert(self.forks@[k as int].fork_id == f);
                            return true;
                        }
                        k += 1;
                    }
                    false
                },
                None => false,
            },
            EncounterKind::Other => e.selected_fork.is_none(),
        }
    }

    /// Appends one encounter, given the digest of its sealed form and the
    /// length of its encoding; a refused encounter leaves the journal as it
    /// was.
    pub fn append(&mut self, encounter: OfflineEncounter, seal: EncounterSeal) -> (r: Result<(), ZapError>)
        ensures
            journal_valid(final(self)@),
            r is Ok <==> accepts(old(self)@, encounter@, seal),
            r is Ok ==> final(self)@ == appended(old(self)@, encounter@, seal),
            r is Err ==> final(self)@ == old(self)@,
            r matches Err(e) ==> e.code == ErrorCode::InvalidValue,
    {
        proof {
            use_type_invariant(&*self);
        }
        let attempt = match self.find_attempt(encounter.job_id) {
            Some(a) => a,
            None => return Err(ZapError::new(ErrorCode::InvalidValue)),
        };
        let count = self.chain.encounters.len();
        assert(count == self@.encounters.len());
        if encounter.sequence as usize != count || encounter.previous_digest.0 != self.chain.previous.0
            || encounter.attempt_id.0 != attempt.attempt_id.0 || encounter.packet_id.0 != attempt.packet_id.0
            || encounter.producer != attempt.producer {
            return Err(ZapError::new(ErrorCode::InvalidValue));
        }
        if !self.causes_recorded(&encounter.causes) {
            return Err(ZapError::new(ErrorCode::InvalidValue));
        }
        if !self.fork_known(&encounter) || encounter.digest.0 != seal.digest.0 {
            return Err(ZapError::new(ErrorCode::InvalidValue));
        }
        let next = match self.chain.encoded_bytes.checked_add(seal.encoded_bytes) {
            Some(n) => n,
            None => return Err(ZapError::new(ErrorCode::InvalidValue)),
        };
        if count >= self.maximum_encounters as usize || next > self.maximum_return_bytes {
            return Err(ZapError::new(ErrorCode::InvalidValue));
        }
        let ghost before = self@;
        let ghost e = encounter@;
        proof {
            lemma_append_keeps_chain(before, e, seal);
        }
        let mut chain = EncounterChain { encounters: Vec::new(), previous: self.genesis, encoded_bytes: 0 };
        assert(encounter_views(chain.encounters@) =~= Seq::<EncounterView>::empty());
        std::mem::swap(&mut chain, &mut self.chain);
        chain.encounters.push(encounter);
        chain.previous = seal.digest;
        chain.encoded_bytes = next;
        assert(encounter_views(chain.encounters@) =~= before.encounters.push(e));
        self.chain = chain;
        Ok(())
    }

    /// Closes the journal into the delta returned to the store.
    pub fn finish(self) -> (r: EncounterDelta)
        ensures
            r@ == delta_of(self@),
            chained(r@.encounters, r@.previous_digest),
            r@.final_digest == chain_head(r@.encounters, r@.previous_digest),
    {
        proof {
            use_type_invariant(&self);
        }
        let OfflineEncounterJournal { bundle_id, manifest_digest, genesis, chain, .. } = self;
        EncounterDelta {
            source_bundle_id: bundle_id,
            source_manifest_digest: manifest_digest,
            first_sequence: 0,
            previous_digest: genesis,
            final_digest: chain.previous,
            encounters: chain.encounters,
            encoded_bytes: chain.encoded_bytes,
        }
    }
}

/// The bounded chain of encounters that an offline worker returns.
#[derive(Debug)]
pub struct EncounterDelta {
    pub source_bundle_id: BundleId,
    pub source_manifest_digest: DigestValue,
    pub first_sequence: u32,
    pub previous_digest: DigestValue,
    pub final_digest: DigestValue,
    pub encounters: Vec<OfflineEncounter>,
    pub encoded_bytes: u64,
}

pub ghost struct DeltaView {
    pub source_bundle_id: BundleId,
    pub source_manifest_digest: DigestValue,
    pub first_sequence: u32,
    pub previous_digest: DigestValue,
    pub final_digest: DigestValue,
    pub encounters: Seq<EncounterView>,
    pub encoded_bytes: u64,
}

impl View for EncounterDelta {
    type V = DeltaView;

    open spec fn view(&self) -> DeltaView {
        DeltaView {
            source_bundle_id: self.source_bundle_id,
            source_manifest_digest: self.source_manifest_digest,
            first_sequence: self.first_sequence,
            previous_digest: self.previous_digest,
            final_digest: self.final_digest,
            encounters: encounter_views(self.encounters@),
            encoded_bytes: self.encoded_bytes,
        }
    }
}

/// The delta a journal closes into.
pub open spec fn delta_of(j: JournalView) -> DeltaView {
    DeltaView {
        source_bundle_id: j.bundle_id,
        source_manifest_digest: j.manifest_digest,
        first_sequence: 0,
        previous_digest: j.genesis,
        final_digest: j.previous,
        encounters: j.encounters,
        encoded_bytes: j.encoded_bytes,
    }
}


/// The journal after it takes the encounters in order, if it takes them all.
pub open spec fn replay(j: JournalView, es: Seq<EncounterView>, seals: Seq<EncounterSeal>) -> Option<JournalView>
    decreases es.len(),
{
    if es.len() == 0 {
        Some(j)
    } else if accepts(j, es[0], seals[0]) {
        replay(appended(j, es[0], seals[0]), es.drop_first(), seals.drop_first())
    } else {
        None
    }
}

proof fn lemma_replay_valid(j: JournalView, es: Seq<EncounterView>, seals: Seq<EncounterSeal>)
    requires
        journal_valid(j),
        replay(j, es, seals) is Some,
    ensures
        journal_valid(replay(j, es, seals)->0),
        replay(j, es, seals)->0.genesis == j.genesis,
        replay(j, es, seals)->0.bundle_id == j.bundle_id,
        replay(j, es, seals)->0.manifest_digest == j.manifest_digest,
        replay(j, es, seals)->0.maximum_encounters == j.maximum_encounters,
        replay(j, es, seals)->0.maximum_return_bytes == j.maximum_return_bytes,
    decreases es.len(),
{
    if es.len() > 0 {
        lemma_append_keeps_chain(j, es[0], seals[0]);
        lemma_replay_valid(appended(j, es[0], seals[0]), es.drop_first(), seals.drop_first());
    }
}

fn encounter_same(a: &OfflineEncounter, b: &OfflineEncounter) -> (r: bool)
    ensures
        r == (a@ == b@),
{
    if a.encounter_id.0 != b.encounter_id.0 || a.sequence != b.sequence || a.previous_digest.0 != b.previous_digest.0 {
        return false;
    }
    if a.job_id.0 != b.job_id.0 || a.attempt_id.0 != b.attempt_id.0 || a.packet_id.0 != b.packet_id.0 {
        return false;
    }
    if !(a.producer == b.producer) {
        return false;
    }
    if !(a.kind == b.kind) {
        return false;
    }
    if a.digest.0 != b.digest.0 {
        return false;
    }
    if a.causes.len() != b.causes.len() {
        assert(a@.causes.len() != b@.causes.len());
        return false;
    }
    let same_fork = match (a.selected_fork, b.selected_fork) {
        (Some(x), Some(y)) => x.0 == y.0,
        (None, None) => true,
        _ => false,
    };
    if !same_fork {
        return false;
    }
    let mut m: usize = 0;
    while m < a.causes.len()
        invariant
            m <= a.causes@.len(),
            a.causes@.len() == b.causes@.len(),
            forall|x: int| 0 <= x < m ==> a.causes@[x] == b.causes@[x],
        decreases a.causes@.len() - m,
    {
        if a.causes[m].0 != b.causes[m].0 {
            return false;
        }
        m += 1;
    }
    assert(a.causes@ =~= b.causes@);
    true
}

fn delta_same(a: &EncounterDelta, b: &EncounterDelta) -> (r: bool)
    ensures
        r == (a@ == b@),
{
    if a.source_bundle_id.0 != b.source_bundle_id.0 || a.source_manifest_digest.0 != b.source_manifest_digest.0
        || a.first_sequence != b.first_sequence || a.previous_digest.0 != b.previous_digest.0
        || a.final_digest.0 != b.final_digest.0 || a.encoded_bytes != b.encoded_bytes {
        return false;
    }
    if a.encounters.len() != b.encounters.len() {
        assert(a@.encounters.len() != b@.encounters.len());
        return false;
    }
    let mut i: usize = 0;
    while i < a.encounters.len()
        invariant
            i <= a.encounters@.len(),
            a.encounters@.len() == b.encounters@.len(),
            forall|x: int| 0 <= x < i ==> a.encounters@[x]@ == b.encounters@[x]@,
        decreases a.encounters@.len() - i,
    {
        if !encounter_same(&a.encounters[i], &b.encounters[i]) {
            assert(a@.encounters[i as int] != b@.encounters[i as int]);
            return false;
        }
        i += 1;
    }
    assert(a@.encounters =~= b@.encounters);
    true
}

/// The delta is what a fresh journal on the manifest rebuilds from the
/// delta's encounters and their seals.
pub open spec fn delta_rebuilt(m: WeakBundleManifest, d: DeltaView, seals: Seq<EncounterSeal>) -> bool {
    replay(journal_start(m), d.encounters, seals) matches Some(j) && delta_of(j) == d
}

proof fn lemma_replay_push(j: JournalView, es: Seq<EncounterView>, seals: Seq<EncounterSeal>, e: EncounterView, seal: EncounterSeal)
    requires
        es.len() == seals.len(),
        replay(j, es, seals) matches Some(after) && accepts(after, e, seal),
    ensures
        replay(j, es.push(e), seals.push(seal)) == Some(appended(replay(j, es, seals)->0, e, seal)),
    decreases es.len(),
{
    if es.len() == 0 {
        assert(es.push(e)[0] == e);
        assert(es.push(e).drop_first() =~= Seq::<EncounterView>::empty());
        assert(seals.push(seal)[0] == seal);
        assert(seals.push(seal).drop_first() =~= Seq::<EncounterSeal>::empty());
        let next = appended(j, e, seal);
        assert(replay(next, Seq::<EncounterView>::empty(), Seq::<EncounterSeal>::empty()) == Some(next));
    } else {
        assert(es.push(e)[0] == es[0]);
        assert(seals.push(seal)[0] == seals[0]);
        assert(es.push(e).drop_first() =~= es.drop_first().push(e));
        assert(seals.push(seal).drop_first() =~= seals.drop_first().push(seal));
        let next = appended(j, es[0], seals[0]);
        lemma_replay_push(next, es.drop_first(), seals.drop_first(), e, seal);
        assert(replay(j, es.push(e), seals.push(seal)) == replay(next, es.drop_first().push(e), seals.drop_first().push(seal)));
    }
}

proof fn lemma_replay_encounters(j: JournalView, es: Seq<EncounterView>, seals: Seq<EncounterSeal>)
    requires
        replay(j, es, seals) is Some,
    ensures
        replay(j, es, seals)->0.encounters == j.encounters + es,
    decreases es.len(),
{
    if es.len() == 0 {
        assert(j.encounters + es =~= j.encounters);
    } else {
        lemma_replay_encounters(appended(j, es[0], seals[0]), es.drop_first(), seals.drop_first());
        assert(j.encounters.push(es[0]) + es.drop_first() =~= j.encounters + es);
    }
}

/// A journal that takes encounters one at a time, from a fresh start on the
/// manifest, holds what replaying them in that order gives.
pub proof fn law_append_extends_replay(
    manifest: WeakBundleManifest,
    es: Seq<EncounterView>,
    seals: Seq<EncounterSeal>,
    e: EncounterView,
    seal: EncounterSeal,
)
    requires
        es.len() == seals.len(),
        replay(journal_start(manifest), es, seals) matches Some(j) && accepts(j, e, seal),
    ensures
        replay(journal_start(manifest), es.push(e), seals.push(seal)) == Some(
            appended(replay(journal_start(manifest), es, seals)->0, e, seal),
        ),
{
    lemma_replay_push(journal_start(manifest), es, seals, e, seal);
}

/// What `validate_delta` accepts: the manifest opens a journal under the
/// given digest, and the delta is what that journal rebuilds from the
/// delta's encounters and their seals.
pub open spec fn delta_validates(m: WeakBundleManifest, manifest_digest: DigestValue, d: DeltaView, seals: Seq<EncounterSeal>) -> bool {
    opens_journal(m, manifest_digest) && delta_rebuilt(m, d, seals)
}

/// The round trip of an offline bundle: a journal opened on the manifest
/// that takes encounters in order (each append succeeding, so the journal
/// holds what replaying them gives) finishes with a delta that holds exactly
/// those encounters and validates against the manifest with their seals;
/// any other delta with the same encounters does not validate.
pub proof fn law_finished_delta_validates(
    manifest: WeakBundleManifest,
    manifest_digest: DigestValue,
    es: Seq<EncounterView>,
    seals: Seq<EncounterSeal>,
)
    requires
        opens_journal(manifest, manifest_digest),
        replay(journal_start(manifest), es, seals) is Some,
    ensures
        delta_of(replay(journal_start(manifest), es, seals)->0).encounters == es,
        delta_validates(manifest, manifest_digest, delta_of(replay(journal_start(manifest), es, seals)->0), seals),
        forall|d: DeltaView| d.encounters == es && d != delta_of(replay(journal_start(manifest), es, seals)->0)
            ==> !#[trigger] delta_validates(manifest, manifest_digest, d, seals),
{
    let start = journal_start(manifest);
    lemma_replay_encounters(start, es, seals);
    assert(start.encounters + es =~= es);
}

/// Checks a returned delta against its manifest: replaying its encounters
/// through a fresh journal, with the codec's seal of each, must rebuild the
/// delta exactly.
pub fn validate_delta(manifest: &WeakBundleManifest, manifest_digest: DigestValue, delta: &EncounterDelta, seals: &[EncounterSeal]) -> (r: Result<(), ZapError>)
    requires
        seals@.len() == delta.encounters@.len(),
    ensures
        r is Ok <==> delta_validates(*manifest, manifest_digest, delta@, seals@),
        r matches Err(e) ==> e.code == ErrorCode::InvalidValue,
{
    let mut journal = OfflineEncounterJournal::new(manifest, manifest_digest)?;
    let ghost start = journal@;
    let ghost es = delta@.encounters;
    let mut i: usize = 0;
    proof {
        assert(es.skip(0) =~= es);
        assert(seals@.skip(0) =~= seals@);
    }
    while i < delta.encounters.len()
        invariant
            i <= es.len(),
            es == delta@.encounters,
            seals@.len() == es.len(),
            start == journal_start(*manifest),
            journal_valid(journal@),
            replay(start, es, seals@) == replay(journal@, es.skip(i as int), seals@.skip(i as int)),
        decreases es.len() - i,
    {
        proof {
            assert(es.skip(i as int)[0] == es[i as int]);
            assert(es.skip(i as int).drop_first() =~= es.skip(i as int + 1));
            assert(seals@.skip(i as int).drop_first() =~= seals@.skip(i as int + 1));
        }
        let encounter = delta.encounters[i].clone();
        match journal.append(encounter, seals[i]) {
            Ok(()) => {},
            Err(e) => return Err(e),
        }
        i += 1;
    }
    proof {
        assert(es.skip(es.len() as int) =~= Seq::<EncounterView>::empty());
    }
    let rebuilt = journal.finish();
    if !delta_same(&rebuilt, delta) {
        return Err(ZapError::new(ErrorCode::InvalidValue));
    }
    Ok(())
}

/// A returned delta that validates against a manifest is an exact hash chain
/// from the bundle's genesis to its final digest, numbered from zero and
/// within the bundle's bounds.
pub proof fn law_accepted_delta_is_a_chain(manifest: WeakBundleManifest, delta: DeltaView, seals: Seq<EncounterSeal>)
    requires
        delta_rebuilt(manifest, delta, seals),
    ensures
        chained(delta.encounters, delta.previous_digest),
        delta.previous_digest == manifest.encounter_genesis,
        delta.final_digest == chain_head(delta.encounters, delta.previous_digest),
        delta.first_sequence == 0,
        delta.encounters.len() <= manifest.maximum_encounters,
        delta.encoded_bytes <= manifest.maximum_return_bytes,
{
    let start = journal_start(manifest);
    assert(start.encounters =~= Seq::<EncounterView>::empty());
    lemma_replay_valid(start, delta.encounters, seals);
}

} // verus!
