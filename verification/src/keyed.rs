//! Items ordered by a pair of integers: sorting, and checks for order and
//! repetition.
use vstd::prelude::*;

verus! {

/// Lexicographic order of keys.
pub open spec fn key_le(a: (u64, u64), b: (u64, u64)) -> bool {
    a.0 < b.0 || (a.0 == b.0 && a.1 <= b.1)
}

/// An item ordered, compared and found by a pair of integers.
pub trait Keyed: Sized {
    spec fn key_of(&self) -> (u64, u64);

    fn key(&self) -> (r: (u64, u64))
        ensures
            r == self.key_of(),
    ;
}

/// The items are in key order.
pub open spec fn keys_sorted<T: Keyed>(s: Seq<T>) -> bool {
    forall|i: int, j: int| 0 <= i < j < s.len() ==> key_le((#[trigger] s[i]).key_of(), (#[trigger] s[j]).key_of())
}

/// No two items share a key.
pub open spec fn keys_distinct<T: Keyed>(s: Seq<T>) -> bool {
    forall|i: int, j: int| 0 <= i < j < s.len() ==> (#[trigger] s[i]).key_of() != (#[trigger] s[j]).key_of()
}

pub(crate) fn insert_sorted<T: Keyed>(v: &mut Vec<T>, item: T)
    requires
        keys_sorted(old(v)@),
    ensures
        keys_sorted(final(v)@),
        final(v)@.to_multiset() == old(v)@.to_multiset().insert(item),
{
    let k = item.key();
    let mut p: usize = 0;
    while p < v.len() && key_le_exec(v[p].key(), k)
        invariant
            p <= v.len(),
            k == item.key_of(),
            forall|m: int| 0 <= m < p ==> key_le(v@[m].key_of(), k),
        decreases v.len() - p,
    {
        p += 1;
    }
    let ghost before = v@;
    v.insert(p, item);
    proof {
        vstd::seq_lib::to_multiset_insert(before, p as int, item);
        assert forall|i: int, j: int| 0 <= i < j < v@.len() implies key_le((#[trigger] v@[i]).key_of(), (#[trigger] v@[j]).key_of()) by {
            if i < p as int && j == p as int {
            } else if i < p as int && j > p as int {
                assert(v@[j] == before[j - 1]);
            } else if i == p as int && j > p as int {
                assert(v@[j] == before[j - 1]);
                assert(!key_le(before[p as int].key_of(), k));
                if j - 1 > p as int {
                    assert(key_le(before[p as int].key_of(), before[j - 1].key_of()));
                }
            } else if i > p as int {
                assert(v@[i] == before[i - 1]);
                assert(v@[j] == before[j - 1]);
            }
        }
    }
}

pub(crate) fn key_le_exec(a: (u64, u64), b: (u64, u64)) -> (r: bool)
    ensures
        r == key_le(a, b),
{
    a.0 < b.0 || (a.0 == b.0 && a.1 <= b.1)
}

/// Sorts bindings by key, keeping every item.
pub(crate) fn sort_keyed<T: Keyed>(v: Vec<T>) -> (r: Vec<T>)
    ensures
        keys_sorted(r@),
        r@.to_multiset() == v@.to_multiset(),
{
    let mut out: Vec<T> = Vec::new();
    let mut rest = v;
    let ghost start = rest@;
    proof {
        vstd::seq_lib::to_multiset_len(out@);
        vstd::multiset::lemma_multiset_empty_len(out@.to_multiset());
        assert(out@.to_multiset().add(rest@.to_multiset()) =~= start.to_multiset());
    }
    while rest.len() > 0
        invariant
            keys_sorted(out@),
            out@.to_multiset().add(rest@.to_multiset()) == start.to_multiset(),
        decreases rest.len(),
    {
        let ghost before = rest@;
        let item = rest.pop().unwrap();
        proof {
            assert(before =~= rest@.push(item));
            vstd::seq_lib::to_multiset_build(rest@, item);
        }
        insert_sorted(&mut out, item);
        proof {
            assert(out@.to_multiset().add(rest@.to_multiset()) =~= start.to_multiset());
        }
    }
    proof {
        vstd::seq_lib::to_multiset_len(rest@);
        vstd::multiset::lemma_multiset_empty_len(rest@.to_multiset());
        assert(out@.to_multiset().add(rest@.to_multiset()) =~= out@.to_multiset());
    }
    out
}


/// Whether no two items share a key, by comparing every pair.
pub(crate) fn distinct_keys<T: Keyed>(v: &Vec<T>) -> (r: bool)
    ensures
        r == keys_distinct(v@),
{
    let mut i: usize = 0;
    while i < v.len()
        invariant
            i <= v.len(),
            forall|a: int, b: int| 0 <= a < b < v@.len() && a < i ==> (#[trigger] v@[a]).key_of() != (#[trigger] v@[b]).key_of(),
        decreases v.len() - i,
    {
        let a = v[i].key();
        let mut j: usize = i + 1;
        while j < v.len()
            invariant
                i < j <= v.len(),
                a == v@[i as int].key_of(),
                forall|b: int| i < b < j ==> v@[i as int].key_of() != (#[trigger] v@[b]).key_of(),
            decreases v.len() - j,
        {
            let b = v[j].key();
            if a.0 == b.0 && a.1 == b.1 {
                assert(v@[i as int].key_of() == v@[j as int].key_of());
                return false;
            }
            j += 1;
        }
        i += 1;
    }
    true
}

/// Whether the items are in key order.
pub(crate) fn in_key_order<T: Keyed>(v: &Vec<T>) -> (r: bool)
    ensures
        r == keys_sorted(v@),
{
    if v.len() == 0 {
        return true;
    }
    let mut i: usize = 1;
    while i < v.len()
        invariant
            1 <= i <= v.len(),
            forall|a: int, b: int| 0 <= a < b < i ==> key_le((#[trigger] v@[a]).key_of(), (#[trigger] v@[b]).key_of()),
        decreases v.len() - i,
    {
        if !key_le_exec(v[i - 1].key(), v[i].key()) {
            assert(!keys_sorted(v@)) by {
                assert(!key_le(v@[i - 1].key_of(), v@[i as int].key_of()));
            }
            return false;
        }
        i += 1;
    }
    true
}

pub(crate) fn copy_items<T: Copy>(v: &Vec<T>) -> (r: Vec<T>)
    ensures
        r@ == v@,
{
    let mut out: Vec<T> = Vec::new();
    let mut i: usize = 0;
    while i < v.len()
        invariant
            i <= v.len(),
            out@ == v@.take(i as int),
        decreases v.len() - i,
    {
        out.push(v[i]);
        proof {
            assert(v@.take(i as int + 1) =~= v@.take(i as int).push(v@[i as int]));
        }
        i += 1;
    }
    proof {
        assert(v@.take(v@.len() as int) =~= v@);
    }
    out
}

/// An item of a sequence stands somewhere in any sequence with the same items.
pub(crate) proof fn lemma_found_in_same_items<T>(x: Seq<T>, y: Seq<T>, i: int) -> (k: int)
    requires
        x.to_multiset() == y.to_multiset(),
        0 <= i < x.len(),
    ensures
        0 <= k < y.len(),
        y[k] == x[i],
{
    vstd::seq_lib::to_multiset_contains(x, x[i]);
    vstd::seq_lib::to_multiset_contains(y, x[i]);
    assert(x.contains(x[i]));
    choose|k: int| 0 <= k < y.len() && y[k] == x[i]
}

/// Keys stay distinct in any sequence with the same items.
pub(crate) proof fn lemma_distinct_keys_kept<T: Keyed>(x: Seq<T>, y: Seq<T>)
    requires
        keys_distinct(x),
        x.to_multiset() == y.to_multiset(),
    ensures
        keys_distinct(y),
{
    assert forall|i: int, j: int| 0 <= i < j < y.len() implies (#[trigger] y[i]).key_of() != (#[trigger] y[j]).key_of() by {
        if y[i].key_of() == y[j].key_of() {
            let p = lemma_found_in_same_items(y, x, j);
            vstd::seq_lib::to_multiset_remove(y, j);
            vstd::seq_lib::to_multiset_remove(x, p);
            assert(y.remove(j)[i] == y[i]);
            let q = lemma_found_in_same_items(y.remove(j), x.remove(p), i);
            let q0 = if q < p { q } else { q + 1 };
            assert(x[q0] == x.remove(p)[q]);
            if q0 < p {
                assert(x[q0].key_of() != x[p].key_of());
            } else {
                assert(x[p].key_of() != x[q0].key_of());
            }
        }
    }
}

/// Two sequences in key order with the same items, no key twice, are equal.
pub(crate) proof fn lemma_sorted_same_items_equal<T: Keyed>(a: Seq<T>, b: Seq<T>)
    requires
        keys_sorted(a),
        keys_sorted(b),
        keys_distinct(a),
        a.to_multiset() == b.to_multiset(),
    ensures
        a == b,
    decreases a.len(),
{
    vstd::seq_lib::to_multiset_len(a);
    vstd::seq_lib::to_multiset_len(b);
    if a.len() == 0 {
        assert(a =~= b);
    } else {
        let n = a.len() - 1;
        let k = lemma_found_in_same_items(a, b, n);
        let kk = lemma_found_in_same_items(b, a, n);
        if kk < n {
            assert(key_le(a[kk].key_of(), a[n].key_of()));
        }
        if k < n {
            assert(key_le(b[k].key_of(), b[n].key_of()));
        }
        assert(kk == n);
        assert(b[n] == a[n]);
        vstd::seq_lib::to_multiset_remove(a, n);
        vstd::seq_lib::to_multiset_remove(b, n);
        assert(a.remove(n) =~= a.drop_last());
        assert(b.remove(n) =~= b.drop_last());
        lemma_sorted_same_items_equal(a.drop_last(), b.drop_last());
        assert(a =~= b.drop_last().push(b[n]));
        assert(b =~= b.drop_last().push(b[n]));
    }
}

} // verus!
