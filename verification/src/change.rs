//! A noncommitting buffer of record mutations, and the overlay through which
//! a simulated effect reads its own writes on top of a transaction pre-state.
use vstd::prelude::*;

use crate::bytes::{compare_bytes, lex_lt, lemma_lex_asymmetric, lemma_lex_irreflexive, lemma_lex_total, lemma_lex_transitive};
use crate::error::{ErrorCode, ZapError};
use crate::names::RecordFamily;

verus! {

/// The kind of one prepared record mutation.
#[derive(Clone, Copy, Debug, PartialEq, Eq, Structural)]
pub enum MutationKind {
    Insert,
    Replace,
    Remove,
}

/// The registered description of a record family.
#[derive(Debug)]
pub struct RecordDescriptor {
    pub family: RecordFamily,
}

impl Clone for RecordDescriptor {
    fn clone(&self) -> (r: RecordDescriptor)
        ensures
            r.family@ == self.family@,
    {
        RecordDescriptor { family: self.family.clone() }
    }
}

/// The fixed set of registered record families.
pub struct RecordSet {
    families: Vec<RecordFamily>,
}

impl View for RecordSet {
    type V = Seq<Seq<char>>;

    closed spec fn view(&self) -> Seq<Seq<char>> {
        self.families@.map_values(|f: RecordFamily| f@)
    }
}

impl RecordSet {
    /// A record set registering exactly the given families.
    pub fn from_families(families: Vec<RecordFamily>) -> (r: RecordSet)
        ensures
            r@ == families@.map_values(|f: RecordFamily| f@),
    {
        RecordSet { families }
    }

    /// Whether a family is registered.
    pub fn registration_matches(&self, family: &RecordFamily) -> (r: bool)
        ensures
            r == self@.contains(family@),
    {
        let mut i: usize = 0;
        while i < self.families.len()
            invariant
                0 <= i <= self.families@.len(),
                forall|j: int| 0 <= j < i ==> self.families@[j]@ != family@,
            decreases self.families@.len() - i,
        {
            if self.families[i].same(family) {
                assert(self@[i as int] == family@);
                return true;
            }
            i = i + 1;
        }
        proof {
            if self@.contains(family@) {
                let j = choose|j: int| 0 <= j < self@.len() && self@[j] == family@;
                assert(self.families@[j]@ == family@);
            }
        }
        false
    }
}

/// The mathematical content of one mutation.
pub ghost struct MutationView {
    pub kind: MutationKind,
    pub family: Seq<char>,
    pub key: Seq<u8>,
    pub expected_version: Option<Seq<u8>>,
    pub new_version: Option<Seq<u8>>,
    pub value: Option<Seq<u8>>,
}

/// A mutation's versions and value fit its kind: only an insertion expects
/// no version, only a removal leaves none, and every kind but a removal
/// writes a value.
pub open spec fn mutation_shaped(m: MutationView) -> bool {
    &&& (m.kind == MutationKind::Insert <==> m.expected_version is None)
    &&& (m.kind == MutationKind::Remove <==> m.new_version is None)
    &&& (m.value is Some <==> m.kind != MutationKind::Remove)
}

/// Every mutation fits its kind.
pub open spec fn all_shaped(s: Seq<MutationView>) -> bool {
    forall|i: int| 0 <= i < s.len() ==> mutation_shaped(#[trigger] s[i])
}

pub open spec fn opt_bytes(o: Option<Vec<u8>>) -> Option<Seq<u8>> {
    match o {
        Some(v) => Some(v@),
        None => None,
    }
}

/// One mutation as the commit validator consumes it.
#[derive(Debug)]
pub struct PreparedRecordMutation {
    kind: MutationKind,
    descriptor: RecordDescriptor,
    key: Vec<u8>,
    expected_version: Option<Vec<u8>>,
    new_version: Option<Vec<u8>>,
    value: Option<Vec<u8>>,
}

impl View for PreparedRecordMutation {
    type V = MutationView;

    closed spec fn view(&self) -> MutationView {
        MutationView {
            kind: self.kind,
            family: self.descriptor.family@,
            key: self.key@,
            expected_version: opt_bytes(self.expected_version),
            new_version: opt_bytes(self.new_version),
            value: opt_bytes(self.value),
        }
    }
}

impl Clone for PreparedRecordMutation {
    fn clone(&self) -> (r: PreparedRecordMutation)
        ensures
            r@ == self@,
    {
        PreparedRecordMutation {
            kind: self.kind,
            descriptor: RecordDescriptor { family: self.descriptor.family.clone() },
            key: self.key.clone(),
            expected_version: clone_opt(&self.expected_version),
            new_version: clone_opt(&self.new_version),
            value: clone_opt(&self.value),
        }
    }
}

fn clone_opt(o: &Option<Vec<u8>>) -> (r: Option<Vec<u8>>)
    ensures
        opt_bytes(r) == opt_bytes(*o),
{
    match o {
        Some(v) => Some(v.clone()),
        None => None,
    }
}

fn opt_slice(o: &Option<Vec<u8>>) -> (r: Option<&[u8]>)
    ensures
        r matches Some(s) ==> opt_bytes(*o) == Some(s@),
        r is None <==> o is None,
{
    match o {
        Some(v) => Some(v.as_slice()),
        None => None,
    }
}

impl PreparedRecordMutation {
    pub fn kind(&self) -> (r: MutationKind)
        ensures
            r == self@.kind,
    {
        self.kind
    }

    pub fn descriptor(&self) -> (r: &RecordDescriptor)
        ensures
            r.family@ == self@.family,
    {
        &self.descriptor
    }

    pub fn key(&self) -> (r: &[u8])
        ensures
            r@ == self@.key,
    {
        self.key.as_slice()
    }

    pub fn expected_version(&self) -> (r: Option<&[u8]>)
        ensures
            r matches Some(s) ==> self@.expected_version == Some(s@),
            r is None <==> self@.expected_version is None,
    {
        opt_slice(&self.expected_version)
    }

    pub fn new_version(&self) -> (r: Option<&[u8]>)
        ensures
            r matches Some(s) ==> self@.new_version == Some(s@),
            r is None <==> self@.new_version is None,
    {
        opt_slice(&self.new_version)
    }

    pub fn value(&self) -> (r: Option<&[u8]>)
        ensures
            r matches Some(s) ==> self@.value == Some(s@),
            r is None <==> self@.value is None,
    {
        opt_slice(&self.value)
    }
}

/// The sort key of a mutation: its family's bytes, then its record key.
pub open spec fn mkey(m: MutationView) -> (Seq<u8>, Seq<u8>) {
    (vstd::utf8::encode_utf8(m.family), m.key)
}

pub open spec fn key_lt(a: (Seq<u8>, Seq<u8>), b: (Seq<u8>, Seq<u8>)) -> bool {
    lex_lt(a.0, b.0) || (a.0 == b.0 && lex_lt(a.1, b.1))
}

/// Mutations strictly ordered by (family, key): at most one per record.
pub open spec fn sorted_keys(s: Seq<MutationView>) -> bool {
    forall|i: int, j: int| 0 <= i < j < s.len() ==> key_lt(mkey(#[trigger] s[i]), mkey(#[trigger] s[j]))
}

/// The mutation buffered for a record, if any.
pub open spec fn lookup(s: Seq<MutationView>, k: (Seq<u8>, Seq<u8>)) -> Option<MutationView>
    decreases s.len(),
{
    if s.len() == 0 {
        None
    } else if mkey(s[0]) == k {
        Some(s[0])
    } else {
        lookup(s.drop_first(), k)
    }
}

pub proof fn lemma_key_lt_irreflexive(a: (Seq<u8>, Seq<u8>))
    ensures
        !key_lt(a, a),
{
    lemma_lex_irreflexive(a.0);
    lemma_lex_irreflexive(a.1);
}

pub proof fn lemma_key_lt_transitive(a: (Seq<u8>, Seq<u8>), b: (Seq<u8>, Seq<u8>), c: (Seq<u8>, Seq<u8>))
    requires
        key_lt(a, b),
        key_lt(b, c),
    ensures
        key_lt(a, c),
{
    if lex_lt(a.0, b.0) && lex_lt(b.0, c.0) {
        lemma_lex_transitive(a.0, b.0, c.0);
    } else if lex_lt(a.0, b.0) {
    } else if lex_lt(b.0, c.0) {
    } else {
        lemma_lex_transitive(a.1, b.1, c.1);
    }
}

pub proof fn lemma_key_lt_total(a: (Seq<u8>, Seq<u8>), b: (Seq<u8>, Seq<u8>))
    ensures
        key_lt(a, b) || key_lt(b, a) || a == b,
{
    lemma_lex_total(a.0, b.0);
    lemma_lex_total(a.1, b.1);
}

pub proof fn lemma_key_lt_asymmetric(a: (Seq<u8>, Seq<u8>), b: (Seq<u8>, Seq<u8>))
    requires
        key_lt(a, b),
    ensures
        !key_lt(b, a),
{
    if lex_lt(a.0, b.0) {
        lemma_lex_asymmetric(a.0, b.0);
        if b.0 == a.0 {
            lemma_lex_irreflexive(a.0);
        }
    } else {
        lemma_lex_asymmetric(a.1, b.1);
        lemma_lex_irreflexive(a.0);
    }
}

/// In a sorted buffer, the lookup of a present key finds its unique entry,
/// and a key absent from every entry finds nothing.
pub proof fn lemma_lookup_index(s: Seq<MutationView>, k: (Seq<u8>, Seq<u8>))
    ensures
        (exists|i: int| 0 <= i < s.len() && mkey(s[i]) == k) ==> lookup(s, k) == Some(
            s[choose|i: int| 0 <= i < s.len() && mkey(s[i]) == k],
        ) || !sorted_keys(s),
        (forall|i: int| 0 <= i < s.len() ==> mkey(#[trigger] s[i]) != k) ==> lookup(s, k) is None,
    decreases s.len(),
{
    if s.len() > 0 {
        lemma_lookup_index(s.drop_first(), k);
        if sorted_keys(s) && (exists|i: int| 0 <= i < s.len() && mkey(s[i]) == k) {
            let i = choose|i: int| 0 <= i < s.len() && mkey(s[i]) == k;
            if mkey(s[0]) == k {
                if i != 0 {
                    assert(key_lt(mkey(s[0]), mkey(s[i])));
                    lemma_key_lt_irreflexive(k);
                }
            } else {
                assert(s.drop_first()[i - 1] == s[i]);
                assert(sorted_keys(s.drop_first())) by {
                    assert forall|a: int, b: int| 0 <= a < b < s.drop_first().len() implies key_lt(
                        mkey(#[trigger] s.drop_first()[a]),
                        mkey(#[trigger] s.drop_first()[b]),
                    ) by {
                        assert(s.drop_first()[a] == s[a + 1]);
                        assert(s.drop_first()[b] == s[b + 1]);
                    }
                }
                let i2 = choose|i2: int| 0 <= i2 < s.drop_first().len() && mkey(s.drop_first()[i2]) == k;
                if i2 + 1 != i {
                    if i2 + 1 < i {
                        assert(key_lt(mkey(s[i2 + 1]), mkey(s[i])));
                    } else {
                        assert(key_lt(mkey(s[i]), mkey(s[i2 + 1])));
                    }
                    lemma_key_lt_irreflexive(k);
                }
            }
        }
        if forall|i: int| 0 <= i < s.len() ==> mkey(#[trigger] s[i]) != k {
            assert forall|i: int| 0 <= i < s.drop_first().len() implies mkey(#[trigger] s.drop_first()[i]) != k by {
                assert(s.drop_first()[i] == s[i + 1]);
            }
        }
    }
}

/// Lookup of an entry at a known position of a sorted buffer.
pub proof fn lemma_lookup_at(s: Seq<MutationView>, i: int)
    requires
        sorted_keys(s),
        0 <= i < s.len(),
    ensures
        lookup(s, mkey(s[i])) == Some(s[i]),
{
    lemma_lookup_index(s, mkey(s[i]));
    let j = choose|j: int| 0 <= j < s.len() && mkey(s[j]) == mkey(s[i]);
    if j != i {
        if j < i {
            assert(key_lt(mkey(s[j]), mkey(s[i])));
        } else {
            assert(key_lt(mkey(s[i]), mkey(s[j])));
        }
        lemma_key_lt_irreflexive(mkey(s[i]));
    }
}

/// Lookup of a key that no entry of the buffer carries.
pub proof fn lemma_lookup_absent(s: Seq<MutationView>, k: (Seq<u8>, Seq<u8>))
    requires
        forall|i: int| 0 <= i < s.len() ==> mkey(#[trigger] s[i]) != k,
    ensures
        lookup(s, k) is None,
{
    lemma_lookup_index(s, k);
}

/// Lookup through a present key of a sorted buffer.
pub proof fn lemma_lookup_present(s: Seq<MutationView>, k: (Seq<u8>, Seq<u8>))
    requires
        sorted_keys(s),
        exists|i: int| 0 <= i < s.len() && mkey(s[i]) == k,
    ensures
        lookup(s, k) is Some,
        lookup(s, k)->0 == s[choose|i: int| 0 <= i < s.len() && mkey(s[i]) == k],
{
    lemma_lookup_index(s, k);
}

} // verus!

verus! {

/// A reference to a requirement that a commit validator must witness.
#[derive(Debug)]
pub struct RequirementRef {
    text: String,
}

impl View for RequirementRef {
    type V = Seq<char>;

    closed spec fn view(&self) -> Seq<char> {
        self.text@
    }
}

impl Clone for RequirementRef {
    fn clone(&self) -> (r: RequirementRef)
        ensures
            r@ == self@,
    {
        RequirementRef { text: self.text.clone() }
    }
}

impl RequirementRef {
    pub fn new(text: &str) -> (r: RequirementRef)
        ensures
            r@ == text@,
    {
        RequirementRef { text: text.to_owned() }
    }

    pub fn as_str(&self) -> (r: &str)
        ensures
            r@ == self@,
    {
        self.text.as_str()
    }
}

pub open spec fn text_lt(a: Seq<char>, b: Seq<char>) -> bool {
    lex_lt(vstd::utf8::encode_utf8(a), vstd::utf8::encode_utf8(b))
}

/// Requirement references strictly ordered, hence without repetition.
pub open spec fn sorted_texts(s: Seq<Seq<char>>) -> bool {
    forall|i: int, j: int| 0 <= i < j < s.len() ==> text_lt(#[trigger] s[i], #[trigger] s[j])
}

/// The views of a sequence of prepared mutations.
pub open spec fn mutation_views(v: Seq<PreparedRecordMutation>) -> Seq<MutationView> {
    v.map_values(|m: PreparedRecordMutation| m@)
}

pub ghost struct ChangeSetView {
    pub mutations: Seq<MutationView>,
    pub assertions: Seq<Seq<char>>,
}

/// A noncommitting buffer of record mutations and invariant assertions.
pub struct ChangeSet {
    mutations: Vec<PreparedRecordMutation>,
    assertions: Vec<RequirementRef>,
}

impl View for ChangeSet {
    type V = ChangeSetView;

    closed spec fn view(&self) -> ChangeSetView {
        ChangeSetView {
            mutations: mutation_views(self.mutations@),
            assertions: self.assertions@.map_values(|r: RequirementRef| r@),
        }
    }
}

/// Sort key of a mutation at run time.
fn compare_mutation(a: &PreparedRecordMutation, family: &[u8], key: &[u8]) -> (r: i8)
    ensures
        r == -1 <==> key_lt(mkey(a@), (family@, key@)),
        r == 0 <==> mkey(a@) == (family@, key@),
        r == 1 <==> key_lt((family@, key@), mkey(a@)),
        -1 <= r <= 1,
{
    let fa = a.descriptor.family.as_str().as_bytes();
    let c = compare_bytes(fa, family);
    proof {
        lemma_lex_asymmetric_opt(fa@, family@);
    }
    if c != 0 {
        return c;
    }
    let d = compare_bytes(a.key.as_slice(), key);
    proof {
        lemma_lex_asymmetric_opt(a.key@, key@);
        lemma_lex_irreflexive(family@);
    }
    d
}

proof fn lemma_lex_asymmetric_opt(a: Seq<u8>, b: Seq<u8>)
    ensures
        lex_lt(a, b) ==> !lex_lt(b, a),
        lex_lt(a, b) ==> a != b,
{
    if lex_lt(a, b) {
        lemma_lex_asymmetric(a, b);
        lemma_lex_irreflexive(a);
    }
}

proof fn lemma_encode_injective(a: Seq<char>, b: Seq<char>)
    requires
        vstd::utf8::encode_utf8(a) == vstd::utf8::encode_utf8(b),
    ensures
        a == b,
{
    vstd::utf8::encode_utf8_decode_utf8(a);
    vstd::utf8::encode_utf8_decode_utf8(b);
}

proof fn lemma_text_sorted_insert(s: Seq<Seq<char>>, p: int, t: Seq<char>)
    requires
        sorted_texts(s),
        0 <= p <= s.len(),
        forall|j: int| 0 <= j < p ==> text_lt(#[trigger] s[j], t),
        p < s.len() ==> text_lt(t, s[p]),
    ensures
        sorted_texts(s.insert(p, t)),
{
    let u = s.insert(p, t);
    assert forall|i: int, j: int| 0 <= i < j < u.len() implies text_lt(#[trigger] u[i], #[trigger] u[j]) by {
        if j < p {
            assert(u[i] == s[i] && u[j] == s[j]);
        } else if j == p {
            assert(u[i] == s[i]);
        } else if i == p {
            assert(u[j] == s[j - 1]);
            if j - 1 > p {
                assert(text_lt(s[p], s[j - 1]));
                lemma_lex_transitive(
                    vstd::utf8::encode_utf8(t),
                    vstd::utf8::encode_utf8(s[p]),
                    vstd::utf8::encode_utf8(s[j - 1]),
                );
            }
        } else if i < p {
            assert(u[i] == s[i] && u[j] == s[j - 1]);
        } else {
            assert(u[i] == s[i - 1] && u[j] == s[j - 1]);
        }
    }
}

proof fn lemma_sorted_insert(s: Seq<MutationView>, p: int, m: MutationView)
    requires
        sorted_keys(s),
        0 <= p <= s.len(),
        forall|j: int| 0 <= j < p ==> key_lt(mkey(#[trigger] s[j]), mkey(m)),
        p < s.len() ==> key_lt(mkey(m), mkey(s[p])),
    ensures
        sorted_keys(s.insert(p, m)),
{
    let t = s.insert(p, m);
    assert forall|i: int, j: int| 0 <= i < j < t.len() implies key_lt(mkey(#[trigger] t[i]), mkey(#[trigger] t[j])) by {
        if j < p {
            assert(t[i] == s[i] && t[j] == s[j]);
        } else if j == p {
            assert(t[i] == s[i]);
        } else if i == p {
            assert(t[j] == s[j - 1]);
            if j - 1 > p {
                assert(key_lt(mkey(s[p]), mkey(s[j - 1])));
                lemma_key_lt_transitive(mkey(m), mkey(s[p]), mkey(s[j - 1]));
            }
        } else if i < p {
            assert(t[i] == s[i] && t[j] == s[j - 1]);
            if j - 1 > i {
            } else {
                assert(false);
            }
        } else {
            assert(t[i] == s[i - 1] && t[j] == s[j - 1]);
        }
    }
}

proof fn lemma_lookup_after_insert(s: Seq<MutationView>, p: int, m: MutationView, k: (Seq<u8>, Seq<u8>))
    requires
        sorted_keys(s),
        sorted_keys(s.insert(p, m)),
        0 <= p <= s.len(),
    ensures
        lookup(s.insert(p, m), k) == if k == mkey(m) { Some(m) } else { lookup(s, k) },
{
    let t = s.insert(p, m);
    assert(t[p] == m);
    if k == mkey(m) {
        lemma_lookup_at(t, p);
    } else if exists|i: int| 0 <= i < s.len() && mkey(s[i]) == k {
        let i = choose|i: int| 0 <= i < s.len() && mkey(s[i]) == k;
        lemma_lookup_at(s, i);
        lemma_lookup_present(s, k);
        let ti = if i < p { i } else { i + 1 };
        assert(t[ti] == s[i]);
        lemma_lookup_at(t, ti);
    } else {
        lemma_lookup_absent(s, k);
        assert forall|i: int| 0 <= i < t.len() implies mkey(#[trigger] t[i]) != k by {
            if i < p {
                assert(t[i] == s[i]);
            } else if i > p {
                assert(t[i] == s[i - 1]);
            }
        }
        lemma_lookup_absent(t, k);
    }
}

proof fn lemma_lookup_after_update(s: Seq<MutationView>, p: int, m: MutationView, k: (Seq<u8>, Seq<u8>))
    requires
        sorted_keys(s),
        0 <= p < s.len(),
        mkey(s[p]) == mkey(m),
    ensures
        sorted_keys(s.update(p, m)),
        lookup(s.update(p, m), k) == if k == mkey(m) { Some(m) } else { lookup(s, k) },
{
    let t = s.update(p, m);
    assert forall|i: int, j: int| 0 <= i < j < t.len() implies key_lt(mkey(#[trigger] t[i]), mkey(#[trigger] t[j])) by {
        assert(mkey(t[i]) == mkey(s[i]));
        assert(mkey(t[j]) == mkey(s[j]));
    }
    if k == mkey(m) {
        lemma_lookup_at(t, p);
    } else if exists|i: int| 0 <= i < s.len() && mkey(s[i]) == k {
        let i = choose|i: int| 0 <= i < s.len() && mkey(s[i]) == k;
        lemma_lookup_at(s, i);
        lemma_lookup_present(s, k);
        assert(t[i] == s[i]);
        lemma_lookup_at(t, i);
    } else {
        lemma_lookup_absent(s, k);
        assert forall|i: int| 0 <= i < t.len() implies mkey(#[trigger] t[i]) != k by {
            assert(mkey(t[i]) == mkey(s[i]));
        }
        lemma_lookup_absent(t, k);
    }
}

/// A buffer holds at most one mutation per record, in record order, each
/// fitting its kind, and its requirement references in strict order.
pub open spec fn buffer_well_formed(v: ChangeSetView) -> bool {
    &&& sorted_keys(v.mutations)
    &&& all_shaped(v.mutations)
    &&& sorted_texts(v.assertions)
}

impl ChangeSet {
    #[verifier::type_invariant]
    spec fn wf(self) -> bool {
        buffer_well_formed(self@)
    }

    /// Creates an empty, noncommitting mutation buffer.
    pub fn new() -> (r: ChangeSet)
        ensures
            buffer_well_formed(r@),
            r@.mutations.len() == 0,
            r@.assertions.len() == 0,
    {
        let r = ChangeSet { mutations: Vec::new(), assertions: Vec::new() };
        assert(r@.mutations =~= Seq::empty());
        assert(r@.assertions =~= Seq::empty());
        r
    }

    /// Retains one mutation; a second mutation for the same record replaces
    /// the first and is refused as a conflict.
    fn add(&mut self, m: PreparedRecordMutation) -> (r: Result<(), ZapError>)
        requires
            mutation_shaped(m@),
        ensures
            buffer_well_formed(final(self)@),
            r is Err <==> lookup(old(self)@.mutations, mkey(m@)) is Some,
            r matches Err(e) ==> e.code == ErrorCode::Conflict,
            forall|k: (Seq<u8>, Seq<u8>)| #[trigger] lookup(final(self)@.mutations, k) == if k == mkey(m@) {
                Some(m@)
            } else {
                lookup(old(self)@.mutations, k)
            },
            final(self)@.assertions == old(self)@.assertions,
            final(self)@.mutations.len() == old(self)@.mutations.len() + if r is Ok { 1int } else { 0int },
    {
        proof {
            use_type_invariant(&*self);
        }
        let ghost s = self@.mutations;
        let ghost k = mkey(m@);
        let mut rows: Vec<PreparedRecordMutation> = Vec::new();
        std::mem::swap(&mut rows, &mut self.mutations);
        assert(mutation_views(rows@) == s);
        let fam_str = m.descriptor.family.as_str();
        let fam = fam_str.as_bytes();
        let key = m.key.as_slice();
        let mut p: usize = 0;
        let n = rows.len();
        let mut c: i8 = 1;
        while p < n
            invariant
                n == rows@.len(),
                s == mutation_views(rows@),
                0 <= p <= n,
                fam@ == k.0,
                key@ == k.1,
                forall|j: int| 0 <= j < p ==> key_lt(mkey(#[trigger] s[j]), k),
            ensures
                0 <= p <= n,
                forall|j: int| 0 <= j < p ==> key_lt(mkey(#[trigger] s[j]), k),
                p < n ==> (c == 0 && mkey(s[p as int]) == k) || (c == 1 && key_lt(k, mkey(s[p as int]))),
            decreases n - p,
        {
            c = compare_mutation(&rows[p], fam, key);
            assert(rows@[p as int]@ == s[p as int]);
            assert((fam@, key@) == k);
            if c != -1 {
                break;
            }
            p = p + 1;
        }
        proof {
            assert forall|j: int| 0 <= j < p implies mkey(#[trigger] s[j]) != k by {
                lemma_key_lt_irreflexive(k);
            }
        }
        let equal = p < n && c == 0;
        if equal {
            proof {
                lemma_lookup_at(s, p as int);
            }
            rows.set(p, m);
            proof {
                assert(mutation_views(rows@) =~= s.update(p as int, m@));
                assert forall|i: int| 0 <= i < mutation_views(rows@).len() implies mutation_shaped(#[trigger] mutation_views(rows@)[i]) by {
                    if i != p as int {
                        assert(mutation_views(rows@)[i] == s[i]);
                    }
                }
                lemma_lookup_after_update(s, p as int, m@, k);
                assert forall|k2: (Seq<u8>, Seq<u8>)| #[trigger] lookup(mutation_views(rows@), k2) == if k2 == k {
                    Some(m@)
                } else {
                    lookup(s, k2)
                } by {
                    lemma_lookup_after_update(s, p as int, m@, k2);
                }
            }
            self.mutations = rows;
            return Err(ZapError::new(ErrorCode::Conflict));
        }
        proof {
            assert forall|j: int| 0 <= j < s.len() implies mkey(#[trigger] s[j]) != k by {
                if j >= p {
                    if j > p {
                        assert(key_lt(mkey(s[p as int]), mkey(s[j])));
                        lemma_key_lt_transitive(k, mkey(s[p as int]), mkey(s[j]));
                    }
                    lemma_key_lt_irreflexive(k);
                }
            }
            lemma_lookup_absent(s, k);
            lemma_sorted_insert(s, p as int, m@);
        }
        rows.insert(p, m);
        proof {
            assert(mutation_views(rows@) =~= s.insert(p as int, m@));
            assert forall|i: int| 0 <= i < mutation_views(rows@).len() implies mutation_shaped(#[trigger] mutation_views(rows@)[i]) by {
                if i < p as int {
                    assert(mutation_views(rows@)[i] == s[i]);
                } else if i > p as int {
                    assert(mutation_views(rows@)[i] == s[i - 1]);
                }
            }
            assert forall|k2: (Seq<u8>, Seq<u8>)| #[trigger] lookup(mutation_views(rows@), k2) == if k2 == k {
                Some(m@)
            } else {
                lookup(s, k2)
            } by {
                lemma_lookup_after_insert(s, p as int, m@, k2);
            }
        }
        self.mutations = rows;
        Ok(())
    }

    /// Retains an insertion for later validation by the commit service.
    pub fn insert(&mut self, descriptor: RecordDescriptor, key: Vec<u8>, version: Vec<u8>, value: Vec<u8>) -> (r: Result<(), ZapError>)
        ensures
            buffer_well_formed(final(self)@),
            r is Err <==> lookup(old(self)@.mutations, (vstd::utf8::encode_utf8(descriptor.family@), key@)) is Some,
            r matches Err(e) ==> e.code == ErrorCode::Conflict,
            forall|k: (Seq<u8>, Seq<u8>)| #[trigger] lookup(final(self)@.mutations, k) == if k == (vstd::utf8::encode_utf8(descriptor.family@), key@) {
                Some(MutationView {
                    kind: MutationKind::Insert,
                    family: descriptor.family@,
                    key: key@,
                    expected_version: None,
                    new_version: Some(version@),
                    value: Some(value@),
                })
            } else {
                lookup(old(self)@.mutations, k)
            },
            final(self)@.assertions == old(self)@.assertions,
            final(self)@.mutations.len() == old(self)@.mutations.len() + if r is Ok { 1int } else { 0int },
    {
        self.add(PreparedRecordMutation {
            kind: MutationKind::Insert,
            descriptor,
            key,
            expected_version: None,
            new_version: Some(version),
            value: Some(value),
        })
    }

    /// Retains a compare-and-replace for later atomic validation.
    pub fn replace(
        &mut self,
        descriptor: RecordDescriptor,
        key: Vec<u8>,
        expected: Vec<u8>,
        version: Vec<u8>,
        value: Vec<u8>,
    ) -> (r: Result<(), ZapError>)
        ensures
            buffer_well_formed(final(self)@),
            r is Err <==> lookup(old(self)@.mutations, (vstd::utf8::encode_utf8(descriptor.family@), key@)) is Some,
            r matches Err(e) ==> e.code == ErrorCode::Conflict,
            forall|k: (Seq<u8>, Seq<u8>)| #[trigger] lookup(final(self)@.mutations, k) == if k == (vstd::utf8::encode_utf8(descriptor.family@), key@) {
                Some(MutationView {
                    kind: MutationKind::Replace,
                    family: descriptor.family@,
                    key: key@,
                    expected_version: Some(expected@),
                    new_version: Some(version@),
                    value: Some(value@),
                })
            } else {
                lookup(old(self)@.mutations, k)
            },
            final(self)@.assertions == old(self)@.assertions,
            final(self)@.mutations.len() == old(self)@.mutations.len() + if r is Ok { 1int } else { 0int },
    {
        self.add(PreparedRecordMutation {
            kind: MutationKind::Replace,
            descriptor,
            key,
            expected_version: Some(expected),
            new_version: Some(version),
            value: Some(value),
        })
    }

    /// Retains a compare-and-remove for later atomic validation.
    pub fn remove(&mut self, descriptor: RecordDescriptor, key: Vec<u8>, expected: Vec<u8>) -> (r: Result<(), ZapError>)
        ensures
            buffer_well_formed(final(self)@),
            r is Err <==> lookup(old(self)@.mutations, (vstd::utf8::encode_utf8(descriptor.family@), key@)) is Some,
            r matches Err(e) ==> e.code == ErrorCode::Conflict,
            forall|k: (Seq<u8>, Seq<u8>)| #[trigger] lookup(final(self)@.mutations, k) == if k == (vstd::utf8::encode_utf8(descriptor.family@), key@) {
                Some(MutationView {
                    kind: MutationKind::Remove,
                    family: descriptor.family@,
                    key: key@,
                    expected_version: Some(expected@),
                    new_version: None,
                    value: None,
                })
            } else {
                lookup(old(self)@.mutations, k)
            },
            final(self)@.assertions == old(self)@.assertions,
            final(self)@.mutations.len() == old(self)@.mutations.len() + if r is Ok { 1int } else { 0int },
    {
        self.add(PreparedRecordMutation {
            kind: MutationKind::Remove,
            descriptor,
            key,
            expected_version: Some(expected),
            new_version: None,
            value: None,
        })
    }

    /// Adds one invariant that the commit validator must witness; the
    /// references stay sorted and free of repetition.
    pub fn require(&mut self, requirement: RequirementRef)
        ensures
            buffer_well_formed(final(self)@),
            final(self)@.mutations == old(self)@.mutations,
            forall|t: Seq<char>| #[trigger] final(self)@.assertions.contains(t) <==> (old(self)@.assertions.contains(t) || t == requirement@),
    {
        proof {
            use_type_invariant(&*self);
        }
        let ghost s = self@.assertions;
        let mut refs: Vec<RequirementRef> = Vec::new();
        std::mem::swap(&mut refs, &mut self.assertions);
        assert(refs@.map_values(|r: RequirementRef| r@) == s);
        let rs = requirement.as_str();
        let rb = rs.as_bytes();
        let n = refs.len();
        let mut p: usize = 0;
        let mut c: i8 = 1;
        while p < n
            invariant
                n == refs@.len(),
                s == refs@.map_values(|r: RequirementRef| r@),
                0 <= p <= n,
                rb@ == vstd::utf8::encode_utf8(requirement@),
                forall|j: int| 0 <= j < p ==> text_lt(#[trigger] s[j], requirement@),
            ensures
                0 <= p <= n,
                forall|j: int| 0 <= j < p ==> text_lt(#[trigger] s[j], requirement@),
                p < n ==> (c == 0 && s[p as int] == requirement@) || (c == 1 && text_lt(requirement@, s[p as int])),
            decreases n - p,
        {
            let t = refs[p].as_str();
            c = compare_bytes(t.as_bytes(), rb);
            assert(refs@[p as int]@ == s[p as int]);
            proof {
                lemma_lex_asymmetric_opt(vstd::utf8::encode_utf8(s[p as int]), rb@);
                if c == 0 {
                    lemma_encode_injective(s[p as int], requirement@);
                }
            }
            if c != -1 {
                c = if c == 0 { 0 } else { 1 };
                break;
            }
            p = p + 1;
        }
        if p < n && c == 0 {
            assert(s.contains(requirement@)) by {
                assert(s[p as int] == requirement@);
            }
            self.assertions = refs;
            return;
        }
        proof {
            lemma_text_sorted_insert(s, p as int, requirement@);
        }
        let ghost r = requirement@;
        refs.insert(p, requirement);
        let ghost after = refs@.map_values(|q: RequirementRef| q@);
        proof {
            assert(after =~= s.insert(p as int, r));
            assert forall|t: Seq<char>| #[trigger] after.contains(t) <==> (s.contains(t) || t == r) by {
                if after.contains(t) {
                    let i = choose|i: int| 0 <= i < after.len() && after[i] == t;
                    if i < p {
                        assert(s[i] == t);
                    } else if i > p {
                        assert(s[i - 1] == t);
                    }
                }
                if s.contains(t) {
                    let i = choose|i: int| 0 <= i < s.len() && s[i] == t;
                    if i < p {
                        assert(after[i] == t);
                    } else {
                        assert(after[i + 1] == t);
                    }
                }
                if t == r {
                    assert(after[p as int] == t);
                }
            }
        }
        self.assertions = refs;
    }

    /// Checks every buffered mutation against the registered record set and
    /// returns them in record order.
    pub fn prepare(&self, records: &RecordSet) -> (r: Result<Vec<PreparedRecordMutation>, ZapError>)
        ensures
            r is Err <==> exists|i: int| 0 <= i < self@.mutations.len() && !records@.contains(#[trigger] self@.mutations[i].family),
            r matches Err(e) ==> e.code == ErrorCode::InternalInvariant,
            r matches Ok(v) ==> mutation_views(v@) == self@.mutations,
            r matches Ok(v) ==> sorted_keys(mutation_views(v@)),
            r matches Ok(v) ==> forall|i: int| 0 <= i < v@.len() ==> mutation_shaped(#[trigger] v@[i]@),
    {
        proof {
            use_type_invariant(self);
        }
        let mut out: Vec<PreparedRecordMutation> = Vec::new();
        let mut i: usize = 0;
        while i < self.mutations.len()
            invariant
                0 <= i <= self.mutations@.len(),
                mutation_views(out@) == self@.mutations.subrange(0, i as int),
                forall|j: int| 0 <= j < i ==> records@.contains(#[trigger] self@.mutations[j].family),
            decreases self.mutations@.len() - i,
        {
            assert(self@.mutations[i as int] == self.mutations@[i as int]@);
            if !records.registration_matches(&self.mutations[i].descriptor.family) {
                assert(!records@.contains(self@.mutations[i as int].family));
                return Err(ZapError::new(ErrorCode::InternalInvariant));
            }
            let row = self.mutations[i].clone();
            let ghost before = out@;
            out.push(row);
            proof {
                assert(out@ == before.push(row));
                assert(mutation_views(before).len() == before.len());
                assert(before.len() == i);
                assert(row@ == self@.mutations[i as int]);
                assert forall|k: int| 0 <= k < i + 1 implies #[trigger] mutation_views(out@)[k] == self@.mutations.subrange(0, i + 1)[k] by {
                    if k < i {
                        assert(out@[k] == before[k]);
                        assert(mutation_views(before)[k] == self@.mutations.subrange(0, i as int)[k]);
                    }
                }
                assert(mutation_views(out@) =~= self@.mutations.subrange(0, i + 1));
            }
            i = i + 1;
        }
        assert(self@.mutations.subrange(0, i as int) =~= self@.mutations);
        proof {
            assert forall|k: int| 0 <= k < out@.len() implies #[trigger] out@[k]@ == self@.mutations[k] by {
                assert(mutation_views(out@)[k] == out@[k]@);
            }
        }
        Ok(out)
    }

    pub fn is_empty(&self) -> (r: bool)
        ensures
            r == (self@.mutations.len() == 0),
    {
        self.mutations.len() == 0
    }

    pub fn len(&self) -> (r: usize)
        ensures
            r == self@.mutations.len(),
    {
        self.mutations.len()
    }
}

} // verus!

verus! {

/// One committed record of a store snapshot.
pub struct StoredRow {
    pub family: RecordFamily,
    pub key: Vec<u8>,
    pub version: Vec<u8>,
    pub value: Vec<u8>,
}

pub ghost struct RowView {
    pub family: Seq<char>,
    pub key: Seq<u8>,
    pub version: Seq<u8>,
    pub value: Seq<u8>,
}

impl View for StoredRow {
    type V = RowView;

    open spec fn view(&self) -> RowView {
        RowView { family: self.family@, key: self.key@, version: self.version@, value: self.value@ }
    }
}

pub open spec fn row_views(v: Seq<StoredRow>) -> Seq<RowView> {
    v.map_values(|r: StoredRow| r@)
}

/// The record a snapshot holds under a key, if any (the first row that
/// carries it).
pub open spec fn snapshot_get(rows: Seq<RowView>, k: (Seq<u8>, Seq<u8>)) -> Option<RowView>
    decreases rows.len(),
{
    if rows.len() == 0 {
        None
    } else if (vstd::utf8::encode_utf8(rows[0].family), rows[0].key) == k {
        Some(rows[0])
    } else {
        snapshot_get(rows.drop_first(), k)
    }
}

/// An immutable transaction pre-state: its revision and its records.
pub struct RecordSnapshot {
    revision: u64,
    rows: Vec<StoredRow>,
}

pub ghost struct SnapshotView {
    pub revision: u64,
    pub rows: Seq<RowView>,
}

impl View for RecordSnapshot {
    type V = SnapshotView;

    closed spec fn view(&self) -> SnapshotView {
        SnapshotView { revision: self.revision, rows: row_views(self.rows@) }
    }
}

impl RecordSnapshot {
    pub fn new(revision: u64, rows: Vec<StoredRow>) -> (r: RecordSnapshot)
        ensures
            r@.revision == revision,
            r@.rows == row_views(rows@),
    {
        RecordSnapshot { revision, rows }
    }

    pub fn revision(&self) -> (r: u64)
        ensures
            r == self@.revision,
    {
        self.revision
    }

    /// Reads one record of the snapshot.
    pub fn get(&self, family: &RecordFamily, key: &[u8]) -> (r: Option<&StoredRow>)
        ensures
            r matches Some(row) ==> snapshot_get(self@.rows, (vstd::utf8::encode_utf8(family@), key@)) == Some(row@),
            r is None ==> snapshot_get(self@.rows, (vstd::utf8::encode_utf8(family@), key@)) is None,
    {
        let ghost k = (vstd::utf8::encode_utf8(family@), key@);
        let fb = family.as_str().as_bytes();
        let mut i: usize = 0;
        assert(self@.rows.subrange(0, self@.rows.len() as int) =~= self@.rows);
        while i < self.rows.len()
            invariant
                0 <= i <= self.rows@.len(),
                k == (vstd::utf8::encode_utf8(family@), key@),
                fb@ == k.0,
                key@ == k.1,
                snapshot_get(self@.rows, k) == snapshot_get(self@.rows.subrange(i as int, self@.rows.len() as int), k),
            decreases self.rows@.len() - i,
        {
            let row = &self.rows[i];
            assert(self@.rows.len() == self.rows@.len());
            assert(self@.rows[i as int] == self.rows@[i as int]@);
            let ghost rest = self@.rows.subrange(i as int, self@.rows.len() as int);
            assert(rest[0] == row@);
            assert(rest.drop_first() =~= self@.rows.subrange(i + 1, self@.rows.len() as int));
            let c1 = compare_bytes(row.family.as_str().as_bytes(), fb);
            let c2 = compare_bytes(row.key.as_slice(), key);
            if c1 == 0 && c2 == 0 {
                assert((vstd::utf8::encode_utf8(rest[0].family), rest[0].key) == k);
                return Some(row);
            }
            assert((vstd::utf8::encode_utf8(rest[0].family), rest[0].key) != k);
            i = i + 1;
        }
        assert(self@.rows.subrange(i as int, self@.rows.len() as int).len() == 0);
        None
    }
}

/// What a read through the overlay returns: the buffered write for the key
/// (nothing after a removal), else the pre-state.
pub open spec fn overlay_read(mutations: Seq<MutationView>, rows: Seq<RowView>, k: (Seq<u8>, Seq<u8>)) -> Option<Seq<u8>> {
    match lookup(mutations, k) {
        Some(m) => if m.kind == MutationKind::Remove { None } else { m.value },
        None => match snapshot_get(rows, k) {
            Some(row) => Some(row.value),
            None => None,
        },
    }
}

/// A buffered mutation that the pre-state refuses: an insertion over an
/// existing record, or a compare-and-write whose expected version differs.
pub open spec fn contradicts_prestate(m: MutationView, rows: Seq<RowView>) -> bool {
    let current = snapshot_get(rows, mkey(m));
    match m.kind {
        MutationKind::Insert => current is Some,
        _ => match current {
            None => true,
            Some(row) => m.expected_version != Some(row.version),
        },
    }
}

pub open spec fn family_allowed(allowed: Seq<Seq<char>>, family: Seq<char>) -> bool {
    allowed.contains(family)
}

/// The simulation overlay of a change buffer on top of a pre-state.
pub struct ChangeSetOverlay<'a> {
    base: &'a RecordSnapshot,
    mutations: Vec<PreparedRecordMutation>,
}

pub ghost struct OverlayView {
    pub base: SnapshotView,
    pub mutations: Seq<MutationView>,
}

impl<'a> View for ChangeSetOverlay<'a> {
    type V = OverlayView;

    closed spec fn view(&self) -> OverlayView {
        OverlayView { base: self.base@, mutations: mutation_views(self.mutations@) }
    }
}

/// The texts of a sequence of record families.
pub open spec fn family_views(v: Seq<RecordFamily>) -> Seq<Seq<char>> {
    v.map_values(|f: RecordFamily| f@)
}

fn contains_family(allowed: &[RecordFamily], family: &RecordFamily) -> (r: bool)
    ensures
        r == family_views(allowed@).contains(family@),
{
    let ghost a = family_views(allowed@);
    let mut i: usize = 0;
    while i < allowed.len()
        invariant
            0 <= i <= allowed@.len(),
            a == family_views(allowed@),
            forall|j: int| 0 <= j < i ==> a[j] != family@,
        decreases allowed@.len() - i,
    {
        if allowed[i].same(family) {
            assert(a[i as int] == family@);
            return true;
        }
        i = i + 1;
    }
    proof {
        if a.contains(family@) {
            let j = choose|j: int| 0 <= j < a.len() && a[j] == family@;
        }
    }
    false
}

fn bytes_equal(a: &[u8], b: &[u8]) -> (r: bool)
    ensures
        r == (a@ == b@),
{
    compare_bytes(a, b) == 0
}

impl<'a> ChangeSetOverlay<'a> {
    pub open spec fn refused_row(m: MutationView, base: SnapshotView, allowed: Seq<Seq<char>>) -> bool {
        !family_allowed(allowed, m.family) || contradicts_prestate(m, base.rows)
    }

    /// Builds the overlay of `changes` on `base`, refusing unregistered
    /// families (an internal invariant), undeclared families and writes that
    /// contradict the pre-state (conflicts).
    pub fn new(base: &'a RecordSnapshot, changes: &ChangeSet, records: &RecordSet, allowed: &[RecordFamily]) -> (r: Result<ChangeSetOverlay<'a>, ZapError>)
        ensures
            (exists|i: int| 0 <= i < changes@.mutations.len() && !records@.contains(#[trigger] changes@.mutations[i].family))
                ==> (r matches Err(e) && e.code == ErrorCode::InternalInvariant),
            (forall|i: int| 0 <= i < changes@.mutations.len() ==> records@.contains(#[trigger] changes@.mutations[i].family)) ==> (
                r is Err <==> exists|i: int| 0 <= i < changes@.mutations.len() && Self::refused_row(
                    #[trigger] changes@.mutations[i], base@, family_views(allowed@))),
            (forall|i: int| 0 <= i < changes@.mutations.len() ==> records@.contains(#[trigger] changes@.mutations[i].family)) ==> (
                r matches Err(e) ==> e.code == ErrorCode::Conflict),
            r matches Ok(o) ==> o@.base == base@ && o@.mutations == changes@.mutations,
    {
        let prepared = match changes.prepare(records) {
            Ok(v) => v,
            Err(e) => return Err(e),
        };
        let ghost ms = changes@.mutations;
        let ghost al = family_views(allowed@);
        assert(forall|j: int| 0 <= j < ms.len() ==> records@.contains(#[trigger] ms[j].family));
        let mut i: usize = 0;
        while i < prepared.len()
            invariant
                0 <= i <= prepared@.len(),
                mutation_views(prepared@) == ms,
                ms == changes@.mutations,
                forall|j: int| 0 <= j < ms.len() ==> records@.contains(#[trigger] ms[j].family),
                al == family_views(allowed@),
                forall|j: int| 0 <= j < i ==> !Self::refused_row(#[trigger] ms[j], base@, al),
            decreases prepared@.len() - i,
        {
            let row = &prepared[i];
            assert(ms[i as int] == row@);
            if !contains_family(allowed, &row.descriptor.family) {
                assert(Self::refused_row(ms[i as int], base@, al));
                return Err(ZapError::new(ErrorCode::Conflict));
            }
            let current = base.get(&row.descriptor.family, row.key.as_slice());
            assert(mkey(row@) == (vstd::utf8::encode_utf8(row.descriptor.family@), row.key@));
            match row.kind {
                MutationKind::Insert => {
                    if current.is_some() {
                        assert(Self::refused_row(ms[i as int], base@, al));
                        return Err(ZapError::new(ErrorCode::Conflict));
                    }
                },
                _ => {
                    match current {
                        None => {
                            assert(Self::refused_row(ms[i as int], base@, al));
                            return Err(ZapError::new(ErrorCode::Conflict));
                        },
                        Some(cur) => {
                            let matches = match &row.expected_version {
                                Some(ev) => bytes_equal(cur.version.as_slice(), ev.as_slice()),
                                None => false,
                            };
                            if !matches {
                                assert(Self::refused_row(ms[i as int], base@, al));
                                return Err(ZapError::new(ErrorCode::Conflict));
                            }
                        },
                    }
                },
            }
            i = i + 1;
        }
        Ok(ChangeSetOverlay { base, mutations: prepared })
    }

    pub fn revision(&self) -> (r: u64)
        ensures
            r == self@.base.revision,
    {
        self.base.revision()
    }

    /// Reads a record through the overlay: a removal hides it, a buffered
    /// write supplies it, and otherwise the pre-state answers.
    pub fn get_erased(&self, family: &RecordFamily, key: &[u8]) -> (r: Option<Vec<u8>>)
        requires
            sorted_keys(self@.mutations),
        ensures
            opt_bytes(r) == overlay_read(self@.mutations, self@.base.rows, (vstd::utf8::encode_utf8(family@), key@)),
    {
        let ghost k = (vstd::utf8::encode_utf8(family@), key@);
        let ghost ms = self@.mutations;
        let fb = family.as_str().as_bytes();
        let mut i: usize = 0;
        while i < self.mutations.len()
            invariant
                0 <= i <= self.mutations@.len(),
                ms == mutation_views(self.mutations@),
                ms == self@.mutations,
                k == (vstd::utf8::encode_utf8(family@), key@),
                sorted_keys(ms),
                fb@ == k.0,
                key@ == k.1,
                forall|j: int| 0 <= j < i ==> mkey(#[trigger] ms[j]) != k,
            decreases self.mutations@.len() - i,
        {
            let m = &self.mutations[i];
            assert(ms[i as int] == m@);
            let c = compare_mutation(m, fb, key);
            if c == 0 {
                proof {
                    assert((fb@, key@) == k);
                    lemma_lookup_at(ms, i as int);
                }
                let out = match m.kind {
                    MutationKind::Remove => None,
                    _ => clone_opt(&m.value),
                };
                assert(lookup(ms, k) == Some(m@));
                assert(m@.value == opt_bytes(m.value));
                return out;
            }
            proof {
                assert((fb@, key@) == k);
                lemma_key_lt_irreflexive(k);
            }
            i = i + 1;
        }
        proof {
            lemma_lookup_absent(ms, k);
        }
        match self.base.get(family, key) {
            Some(row) => Some(row.value.clone()),
            None => None,
        }
    }
}

/// A read of a record through the overlay of a buffer returns the value that
/// the buffer inserted or replaced for it, and nothing after its removal;
/// every other record reads as in the pre-state.
pub proof fn law_overlay_reads_own_writes(o: OverlayView, k: (Seq<u8>, Seq<u8>))
    requires
        sorted_keys(o.mutations),
    ensures
        forall|i: int| 0 <= i < o.mutations.len() && mkey(#[trigger] o.mutations[i]) == k ==> overlay_read(o.mutations, o.base.rows, k) == if o.mutations[i].kind == MutationKind::Remove {
            None
        } else {
            o.mutations[i].value
        },
        (forall|i: int| 0 <= i < o.mutations.len() ==> mkey(#[trigger] o.mutations[i]) != k) ==> overlay_read(o.mutations, o.base.rows, k) == match snapshot_get(o.base.rows, k) {
            Some(row) => Some(row.value),
            None => None,
        },
{
    assert forall|i: int| 0 <= i < o.mutations.len() && mkey(#[trigger] o.mutations[i]) == k implies overlay_read(o.mutations, o.base.rows, k) == if o.mutations[i].kind == MutationKind::Remove {
        None
    } else {
        o.mutations[i].value
    } by {
        lemma_lookup_at(o.mutations, i);
    }
    if forall|i: int| 0 <= i < o.mutations.len() ==> mkey(#[trigger] o.mutations[i]) != k {
        lemma_lookup_absent(o.mutations, k);
    }
}

/// Buffering a write makes it the buffered mutation of its record: a later
/// insert, replace or remove of the same record is refused, and reads of
/// every other record are unchanged.
pub proof fn law_buffer_holds_last_write(before: Seq<MutationView>, after: Seq<MutationView>, m: MutationView)
    requires
        sorted_keys(before),
        forall|k: (Seq<u8>, Seq<u8>)| #[trigger] lookup(after, k) == if k == mkey(m) { Some(m) } else { lookup(before, k) },
    ensures
        lookup(after, mkey(m)) == Some(m),
        forall|k: (Seq<u8>, Seq<u8>)| k != mkey(m) ==> #[trigger] lookup(after, k) == lookup(before, k),
{
    assert(lookup(after, mkey(m)) == Some(m));
}

} // verus!
