//! Ordered collections kept as sorted vectors.
//!
//! Every key type orders itself by a byte string (`OrderedKey`), and maps
//! and sets keep their entries sorted by it, so iteration order is a pure
//! function of the contents. Lookup and insertion are specified through
//! `lower_bound`: the first position whose key is not below the probe.

use crate::order::{lemma_lex_lt_trans, lemma_lex_order_antisym, lemma_lex_order_range, lex_lt, lex_order};
use vstd::prelude::*;

verus! {

/// A key with a total order given by a byte string, injective on views.
pub trait OrderedKey: View + Sized {
    spec fn order_bytes(k: Self::V) -> Seq<u8>;

    proof fn lemma_order_bytes_injective(a: Self::V, b: Self::V)
        ensures
            Self::order_bytes(a) == Self::order_bytes(b) ==> a == b,
    ;

    fn compare_key(&self, other: &Self) -> (r: i8)
        ensures
            r as int == lex_order(Self::order_bytes(self@), Self::order_bytes(other@)),
    ;

    fn copy_key(&self) -> (r: Self)
        ensures
            r@ == self@,
    ;
}

pub open spec fn key_lt<K: OrderedKey>(a: K::V, b: K::V) -> bool {
    lex_lt(K::order_bytes(a), K::order_bytes(b))
}

/// First position in `keys` whose key is not below `k` (or the length).
pub open spec fn lower_bound<K: OrderedKey>(keys: Seq<K::V>, k: K::V) -> int
    decreases keys.len(),
{
    if keys.len() == 0 {
        0
    } else if !key_lt::<K>(keys[0], k) {
        0
    } else {
        1 + lower_bound::<K>(keys.drop_first(), k)
    }
}

pub open spec fn keys_of<A, B>(s: Seq<(A, B)>) -> Seq<A> {
    s.map_values(|e: (A, B)| e.0)
}

/// Strictly increasing keys.
pub open spec fn keys_sorted<K: OrderedKey>(keys: Seq<K::V>) -> bool {
    forall|i: int, j: int| 0 <= i < j < keys.len() ==> key_lt::<K>(#[trigger] keys[i], #[trigger] keys[j])
}

/// Position of `k` among the entries, if present.
pub open spec fn map_index<K: OrderedKey, B>(s: Seq<(K::V, B)>, k: K::V) -> Option<int> {
    let p = lower_bound::<K>(keys_of(s), k);
    if p < s.len() && s[p].0 == k {
        Some(p)
    } else {
        None
    }
}

/// Two maps with the same keys in the same order find a key at the same
/// position.
pub proof fn lemma_map_index_same_keys<K: OrderedKey, A, B>(s: Seq<(K::V, A)>, t: Seq<(K::V, B)>, k: K::V)
    requires
        keys_of(s) == keys_of(t),
    ensures
        map_index::<K, A>(s, k) == map_index::<K, B>(t, k),
{
    let p = lower_bound::<K>(keys_of(s), k);
    lemma_lower_bound_props::<K>(keys_of(s), k);
    assert(keys_of(s).len() == s.len());
    assert(keys_of(t).len() == t.len());
    if 0 <= p < s.len() {
        assert(keys_of(s)[p] == s[p].0);
        assert(keys_of(t)[p] == t[p].0);
    }
}

pub open spec fn map_get<K: OrderedKey, B>(s: Seq<(K::V, B)>, k: K::V) -> Option<B> {
    match map_index::<K, B>(s, k) {
        Some(i) => Some(s[i].1),
        None => None,
    }
}

pub open spec fn map_insert<K: OrderedKey, B>(s: Seq<(K::V, B)>, k: K::V, v: B) -> Seq<(K::V, B)> {
    let p = lower_bound::<K>(keys_of(s), k);
    if p < s.len() && s[p].0 == k {
        s.update(p, (k, v))
    } else {
        s.insert(p, (k, v))
    }
}

pub open spec fn map_remove<K: OrderedKey, B>(s: Seq<(K::V, B)>, k: K::V) -> Seq<(K::V, B)> {
    match map_index::<K, B>(s, k) {
        Some(i) => s.remove(i),
        None => s,
    }
}

pub open spec fn set_index<K: OrderedKey>(s: Seq<K::V>, k: K::V) -> Option<int> {
    let p = lower_bound::<K>(s, k);
    if p < s.len() && s[p] == k {
        Some(p)
    } else {
        None
    }
}

pub open spec fn set_insert<K: OrderedKey>(s: Seq<K::V>, k: K::V) -> Seq<K::V> {
    let p = lower_bound::<K>(s, k);
    if p < s.len() && s[p] == k {
        s
    } else {
        s.insert(p, k)
    }
}

pub proof fn lemma_key_trichotomy<K: OrderedKey>(a: K::V, b: K::V)
    ensures
        key_lt::<K>(a, b) || key_lt::<K>(b, a) || a == b,
        !(key_lt::<K>(a, b) && key_lt::<K>(b, a)),
        key_lt::<K>(a, b) ==> a != b,
{
    lemma_lex_order_antisym(K::order_bytes(a), K::order_bytes(b));
    lemma_lex_order_range(K::order_bytes(a), K::order_bytes(b));
    K::lemma_order_bytes_injective(a, b);
}

/// Witness characterisation of `lower_bound`.
pub proof fn lemma_lower_bound_is<K: OrderedKey>(keys: Seq<K::V>, k: K::V, p: int)
    requires
        0 <= p <= keys.len(),
        forall|j: int| 0 <= j < p ==> key_lt::<K>(#[trigger] keys[j], k),
        p < keys.len() ==> !key_lt::<K>(keys[p], k),
    ensures
        lower_bound::<K>(keys, k) == p,
    decreases keys.len(),
{
    if keys.len() > 0 && p > 0 {
        let t = keys.drop_first();
        assert forall|j: int| 0 <= j < p - 1 implies key_lt::<K>(#[trigger] t[j], k) by {
            assert(t[j] == keys[j + 1]);
        }
        if p - 1 < t.len() {
            assert(t[p - 1] == keys[p]);
        }
        assert(key_lt::<K>(keys[0], k));
        lemma_lower_bound_is::<K>(t, k, p - 1);
    }
}

/// In a sorted sequence the lower bound is the number of smaller keys.
pub proof fn lemma_sorted_lower_bound<K: OrderedKey>(keys: Seq<K::V>, k: K::V, p: int)
    requires
        keys_sorted::<K>(keys),
        0 <= p <= keys.len(),
        forall|j: int| 0 <= j < p ==> key_lt::<K>(#[trigger] keys[j], k),
        forall|j: int| p <= j < keys.len() ==> !key_lt::<K>(#[trigger] keys[j], k),
    ensures
        lower_bound::<K>(keys, k) == p,
{
    lemma_lower_bound_is::<K>(keys, k, p);
}

/// The defining facts of `lower_bound`.
pub proof fn lemma_lower_bound_props<K: OrderedKey>(keys: Seq<K::V>, k: K::V)
    ensures
        0 <= lower_bound::<K>(keys, k) <= keys.len(),
        forall|j: int| 0 <= j < lower_bound::<K>(keys, k) ==> key_lt::<K>(#[trigger] keys[j], k),
        lower_bound::<K>(keys, k) < keys.len() ==> !key_lt::<K>(
            keys[lower_bound::<K>(keys, k)],
            k,
        ),
    decreases keys.len(),
{
    if keys.len() > 0 && key_lt::<K>(keys[0], k) {
        let t = keys.drop_first();
        lemma_lower_bound_props::<K>(t, k);
        let p = lower_bound::<K>(keys, k);
        assert forall|j: int| 0 <= j < p implies key_lt::<K>(#[trigger] keys[j], k) by {
            if j > 0 {
                assert(keys[j] == t[j - 1]);
            }
        }
        if p < keys.len() {
            assert(keys[p] == t[p - 1]);
        }
    }
}

/// Every sorted sequence's lower bound splits it into smaller and not-smaller keys.
pub proof fn lemma_lower_bound_split<K: OrderedKey>(keys: Seq<K::V>, k: K::V)
    requires
        keys_sorted::<K>(keys),
    ensures
        0 <= lower_bound::<K>(keys, k) <= keys.len(),
        forall|j: int| 0 <= j < lower_bound::<K>(keys, k) ==> key_lt::<K>(#[trigger] keys[j], k),
        forall|j: int|
            lower_bound::<K>(keys, k) <= j < keys.len() ==> !key_lt::<K>(#[trigger] keys[j], k),
{
    lemma_lower_bound_props::<K>(keys, k);
    let p = lower_bound::<K>(keys, k);
    assert forall|j: int| p <= j < keys.len() implies !key_lt::<K>(#[trigger] keys[j], k) by {
        if j > p {
            assert(key_lt::<K>(keys[p], keys[j]));
            if key_lt::<K>(keys[j], k) {
                lemma_lex_lt_trans(
                    K::order_bytes(keys[p]),
                    K::order_bytes(keys[j]),
                    K::order_bytes(k),
                );
            }
        }
    }
}

/// Sortedness survives insertion at the lower bound.
pub proof fn lemma_map_insert_sorted<K: OrderedKey, B>(s: Seq<(K::V, B)>, k: K::V, v: B)
    requires
        keys_sorted::<K>(keys_of(s)),
    ensures
        keys_sorted::<K>(keys_of(map_insert::<K, B>(s, k, v))),
        keys_of(map_insert::<K, B>(s, k, v)) == set_insert::<K>(keys_of(s), k),
{
    let ks = keys_of(s);
    let p = lower_bound::<K>(ks, k);
    lemma_lower_bound_props::<K>(ks, k);
    let r = map_insert::<K, B>(s, k, v);
    if p < s.len() && s[p].0 == k {
        assert(ks[p] == k);
        assert(keys_of(r) =~= ks);
    } else {
        if p < s.len() {
            assert(ks[p] == s[p].0);
        }
        assert(keys_of(r) =~= ks.insert(p, k));
    }
    lemma_set_insert_sorted::<K>(ks, k);
}

pub proof fn lemma_set_insert_sorted<K: OrderedKey>(s: Seq<K::V>, k: K::V)
    requires
        keys_sorted::<K>(s),
    ensures
        keys_sorted::<K>(set_insert::<K>(s, k)),
        set_insert::<K>(s, k).contains(k),
        forall|x: K::V| #[trigger] s.contains(x) ==> set_insert::<K>(s, k).contains(x),
        forall|x: K::V| #[trigger] set_insert::<K>(s, k).contains(x) ==> x == k || s.contains(x),
{
    lemma_lower_bound_split::<K>(s, k);
    let p = lower_bound::<K>(s, k);
    let r = set_insert::<K>(s, k);
    if p < s.len() && s[p] == k {
        assert(r[p] == k);
    } else {
        assert(r[p] == k);
        assert forall|i: int, j: int| 0 <= i < j < r.len() implies key_lt::<K>(
            #[trigger] r[i],
            #[trigger] r[j],
        ) by {
            if j == p {
                assert(r[i] == s[i]);
            } else if i == p {
                assert(r[j] == s[j - 1]);
                lemma_key_trichotomy::<K>(s[j - 1], k);
                if s[j - 1] == k && j - 1 > p {
                    assert(key_lt::<K>(s[p], s[j - 1]));
                }
            } else {
                let ii = if i < p { i } else { i - 1 };
                let jj = if j < p { j } else { j - 1 };
                assert(r[i] == s[ii]);
                assert(r[j] == s[jj]);
            }
        }
        assert forall|x: K::V| #[trigger] s.contains(x) implies r.contains(x) by {
            let i = choose|i: int| 0 <= i < s.len() && s[i] == x;
            if i < p {
                assert(r[i] == x);
            } else {
                assert(r[i + 1] == x);
            }
        }
        assert forall|x: K::V| #[trigger] r.contains(x) implies x == k || s.contains(x) by {
            let i = choose|i: int| 0 <= i < r.len() && r[i] == x;
            if i < p {
                assert(s[i] == x);
            } else if i > p {
                assert(s[i - 1] == x);
            }
        }
    }
}

/// In a sorted map, a key is found exactly where it is stored.
pub proof fn lemma_sorted_map_index<K: OrderedKey, B>(s: Seq<(K::V, B)>, i: int)
    requires
        keys_sorted::<K>(keys_of(s)),
        0 <= i < s.len(),
    ensures
        map_index::<K, B>(s, s[i].0) == Some(i),
{
    let ks = keys_of(s);
    assert forall|j: int| 0 <= j < i implies key_lt::<K>(#[trigger] ks[j], s[i].0) by {
        assert(ks[i] == s[i].0);
    }
    lemma_key_trichotomy::<K>(s[i].0, s[i].0);
    lemma_lower_bound_is::<K>(ks, s[i].0, i);
}

/// After inserting `k`, it is found (at its lower bound).
pub proof fn lemma_map_insert_index<K: OrderedKey, B>(s: Seq<(K::V, B)>, k: K::V, v: B)
    ensures
        map_index::<K, B>(map_insert::<K, B>(s, k, v), k) matches Some(i) && map_insert::<K, B>(
            s,
            k,
            v,
        )[i] == (k, v),
{
    let ks = keys_of(s);
    let p = lower_bound::<K>(ks, k);
    lemma_lower_bound_props::<K>(ks, k);
    let r = map_insert::<K, B>(s, k, v);
    let rk = keys_of(r);
    lemma_key_trichotomy::<K>(k, k);
    if p < s.len() && s[p].0 == k {
        assert(rk =~= ks);
    } else {
        assert(rk =~= ks.insert(p, k));
    }
    assert forall|j: int| 0 <= j < p implies key_lt::<K>(#[trigger] rk[j], k) by {
        assert(rk[j] == ks[j]);
    }
    lemma_lower_bound_is::<K>(rk, k, p);
}

/// Inserting under the same key twice keeps only the second value.
pub proof fn lemma_map_insert_twice<K: OrderedKey, B>(s: Seq<(K::V, B)>, k: K::V, v1: B, v2: B)
    ensures
        map_insert::<K, B>(map_insert::<K, B>(s, k, v1), k, v2) == map_insert::<K, B>(s, k, v2),
        map_get::<K, B>(map_insert::<K, B>(s, k, v1), k) == Some(v1),
{
    let ks = keys_of(s);
    let p = lower_bound::<K>(ks, k);
    lemma_lower_bound_props::<K>(ks, k);
    let r = map_insert::<K, B>(s, k, v1);
    let rk = keys_of(r);
    lemma_key_trichotomy::<K>(k, k);
    if p < s.len() && s[p].0 == k {
        assert(rk =~= ks);
    } else {
        assert(rk =~= ks.insert(p, k));
    }
    assert forall|j: int| 0 <= j < p implies key_lt::<K>(#[trigger] rk[j], k) by {
        assert(rk[j] == ks[j]);
    }
    lemma_lower_bound_is::<K>(rk, k, p);
    assert(r[p] == (k, v1));
    if p < s.len() && s[p].0 == k {
        assert(map_insert::<K, B>(r, k, v2) =~= map_insert::<K, B>(s, k, v2));
    } else {
        assert(map_insert::<K, B>(r, k, v2) =~= s.insert(p, (k, v2)));
    }
}

/// Writing a found key's slot again is the same as inserting under that key.
pub proof fn lemma_map_update_is_insert<K: OrderedKey, B>(s: Seq<(K::V, B)>, i: int)
    requires
        map_index::<K, B>(s, s[i].0) == Some(i),
        0 <= i < s.len(),
    ensures
        forall|v: B| #[trigger] map_insert::<K, B>(s, s[i].0, v) == s.update(i, (s[i].0, v)),
{
    assert(s[i].0 == keys_of(s)[i]);
}

/// An ordered map kept as a vector sorted by key.
#[derive(Debug, Clone, PartialEq, Eq)]
pub struct SortedMap<K, V> {
    entries: Vec<(K, V)>,
}

impl<K: OrderedKey, V: View> View for SortedMap<K, V> {
    type V = Seq<(K::V, V::V)>;

    closed spec fn view(&self) -> Seq<(K::V, V::V)> {
        self.entries@.map_values(|e: (K, V)| (e.0@, e.1@))
    }
}

impl<K: OrderedKey, V: View> SortedMap<K, V> {
    pub open spec fn sorted(&self) -> bool {
        keys_sorted::<K>(keys_of(self@))
    }

    pub fn new() -> (m: Self)
        ensures
            m@ == Seq::<(K::V, V::V)>::empty(),
            m.sorted(),
    {
        let m = SortedMap { entries: Vec::new() };
        assert(m@ =~= Seq::<(K::V, V::V)>::empty());
        m
    }

    /// A map holding exactly the given entries, in the given order.
    pub fn from_entries(entries: Vec<(K, V)>) -> (m: Self)
        ensures
            m@ == entries@.map_values(|e: (K, V)| (e.0@, e.1@)),
    {
        SortedMap { entries }
    }

    pub fn len(&self) -> (n: usize)
        ensures
            n == self@.len(),
    {
        self.entries.len()
    }

    pub fn is_empty(&self) -> (b: bool)
        ensures
            b == (self@.len() == 0),
    {
        self.entries.len() == 0
    }

    pub fn key_at(&self, i: usize) -> (k: &K)
        requires
            i < self@.len(),
        ensures
            k@ == self@[i as int].0,
    {
        &self.entries[i].0
    }

    pub fn value_at(&self, i: usize) -> (v: &V)
        requires
            i < self@.len(),
        ensures
            v@ == self@[i as int].1,
    {
        &self.entries[i].1
    }

    /// The lower bound of `k` among the keys, by linear scan.
    fn position(&self, k: &K) -> (p: usize)
        ensures
            p == lower_bound::<K>(keys_of(self@), k@),
            p <= self@.len(),
    {
        let mut i: usize = 0;
        while i < self.entries.len()
            invariant
                i <= self.entries@.len(),
                forall|j: int| 0 <= j < i ==> key_lt::<K>(#[trigger] keys_of(self@)[j], k@),
            decreases self.entries@.len() - i,
        {
            let c = self.entries[i].0.compare_key(k);
            if c >= 0 {
                proof {
                    assert(keys_of(self@)[i as int] == self.entries@[i as int].0@);
                    lemma_lower_bound_is::<K>(keys_of(self@), k@, i as int);
                }
                return i;
            }
            assert(keys_of(self@)[i as int] == self.entries@[i as int].0@);
            i = i + 1;
        }
        proof {
            lemma_lower_bound_is::<K>(keys_of(self@), k@, i as int);
        }
        i
    }

    /// Index of `k`, if present.
    pub fn index_of(&self, k: &K) -> (r: Option<usize>)
        ensures
            match r {
                Some(i) => map_index::<K, V::V>(self@, k@) == Some(i as int),
                None => map_index::<K, V::V>(self@, k@).is_none(),
            },
    {
        let p = self.position(k);
        if p < self.entries.len() {
            let c = self.entries[p].0.compare_key(k);
            proof {
                lemma_lex_order_antisym(
                    K::order_bytes(self.entries@[p as int].0@),
                    K::order_bytes(k@),
                );
                K::lemma_order_bytes_injective(self.entries@[p as int].0@, k@);
            }
            if c == 0 {
                return Some(p);
            }
        }
        None
    }

    pub fn get(&self, k: &K) -> (r: Option<&V>)
        ensures
            match map_get::<K, V::V>(self@, k@) {
                Some(v) => r.is_some() && r.unwrap()@ == v,
                None => r.is_none(),
            },
    {
        match self.index_of(k) {
            Some(i) => Some(&self.entries[i].1),
            None => None,
        }
    }

    pub fn contains_key(&self, k: &K) -> (b: bool)
        ensures
            b == map_index::<K, V::V>(self@, k@).is_some(),
    {
        self.index_of(k).is_some()
    }

    /// Insert or replace the value for `k`.
    pub fn insert(&mut self, k: K, v: V)
        ensures
            final(self)@ == map_insert::<K, V::V>(old(self)@, k@, v@),
            old(self).sorted() ==> final(self).sorted(),
    {
        let p = self.position(&k);
        let ghost kv = k@;
        let ghost vv = v@;
        let ghost s = self@;
        let mut replace = false;
        if p < self.entries.len() {
            let c = self.entries[p].0.compare_key(&k);
            proof {
                lemma_lex_order_antisym(
                    K::order_bytes(self.entries@[p as int].0@),
                    K::order_bytes(k@),
                );
                K::lemma_order_bytes_injective(self.entries@[p as int].0@, k@);
            }
            replace = c == 0;
        }
        if replace {
            self.entries.remove(p);
            self.entries.insert(p, (k, v));
            assert(self@ =~= s.update(p as int, (kv, vv)));
        } else {
            self.entries.insert(p, (k, v));
            assert(self@ =~= s.insert(p as int, (kv, vv)));
        }
        proof {
            if keys_sorted::<K>(keys_of(s)) {
                lemma_map_insert_sorted::<K, V::V>(s, kv, vv);
            }
        }
    }

    /// Remove the entry for `k`, returning its value.
    pub fn remove(&mut self, k: &K) -> (r: Option<V>)
        ensures
            final(self)@ == map_remove::<K, V::V>(old(self)@, k@),
            match map_get::<K, V::V>(old(self)@, k@) {
                Some(v) => r.is_some() && r.unwrap()@ == v,
                None => r.is_none(),
            },
            old(self).sorted() ==> final(self).sorted(),
    {
        let ghost s = self@;
        match self.index_of(k) {
            Some(i) => {
                let (_key, value) = self.entries.remove(i);
                assert(self@ =~= s.remove(i as int));
                proof {
                    if keys_sorted::<K>(keys_of(s)) {
                        let r = s.remove(i as int);
                        assert forall|a: int, b: int| 0 <= a < b < r.len() implies key_lt::<K>(
                            #[trigger] keys_of(r)[a],
                            #[trigger] keys_of(r)[b],
                        ) by {
                            let aa = if a < i { a } else { a + 1 };
                            let bb = if b < i { b } else { b + 1 };
                            assert(keys_of(r)[a] == keys_of(s)[aa]);
                            assert(keys_of(r)[b] == keys_of(s)[bb]);
                        }
                    }
                }
                Some(value)
            },
            None => None,
        }
    }

    /// Mutable access to the value under `k`, inserting `default` first
    /// when `k` is absent.
    pub fn entry_mut(&mut self, k: K, default: V) -> (r: &mut V)
        ensures
            (*r)@ == match map_get::<K, V::V>(old(self)@, k@) {
                Some(v) => v,
                None => default@,
            },
            final(self)@ == map_insert::<K, V::V>(old(self)@, k@, final(r)@),
    {
        let ghost before = self@;
        let ghost dv = default@;
        let ghost kv = k@;
        let i = match self.index_of(&k) {
            Some(i) => i,
            None => {
                let probe = k.copy_key();
                self.insert(k, default);
                proof {
                    lemma_map_insert_index::<K, V::V>(before, kv, dv);
                }
                match self.index_of(&probe) {
                    Some(i) => i,
                    None => {
                        proof {
                            assert(false);
                        }
                        0
                    },
                }
            },
        };
        let ghost mid = self@;
        proof {
            lemma_map_update_is_insert::<K, V::V>(mid, i as int);
            assert forall|v: V::V| mid.update(i as int, (kv, v)) == #[trigger] map_insert::<K, V::V>(
                before,
                kv,
                v,
            ) by {
                assert(map_insert::<K, V::V>(mid, mid[i as int].0, v) == mid.update(i as int, (mid[i as int].0, v)));
                if map_index::<K, V::V>(before, kv) is None {
                    lemma_map_insert_twice::<K, V::V>(before, kv, dv, v);
                }
            }
        }
        self.value_at_mut(i)
    }

    /// Mutable access to the value stored at position `i`.
    pub fn value_at_mut(&mut self, i: usize) -> (v: &mut V)
        requires
            i < old(self)@.len(),
        ensures
            (*v)@ == old(self)@[i as int].1,
            final(self)@ == old(self)@.update(i as int, (old(self)@[i as int].0, final(v)@)),
    {
        &mut self.entries[i].1
    }

    /// Replace the value stored at position `i`, keeping its key.
    pub fn set_value_at(&mut self, i: usize, v: V) -> (old_v: V)
        requires
            i < old(self)@.len(),
        ensures
            final(self)@ == old(self)@.update(i as int, (old(self)@[i as int].0, v@)),
            old_v@ == old(self)@[i as int].1,
            old(self).sorted() ==> final(self).sorted(),
    {
        let ghost s = self@;
        let (key, value) = self.entries.remove(i);
        self.entries.insert(i, (key, v));
        assert(self@ =~= s.update(i as int, (s[i as int].0, v@)));
        assert(keys_of(self@) =~= keys_of(s));
        value
    }
}

impl<K: OrderedKey, V: View + Copy> SortedMap<K, V> {
    /// An independent copy.
    pub fn duplicate(&self) -> (r: Self)
        ensures
            r@ == self@,
            self.sorted() ==> r.sorted(),
    {
        let mut entries: Vec<(K, V)> = Vec::new();
        let mut i: usize = 0;
        while i < self.entries.len()
            invariant
                i <= self@.len(),
                entries@.len() == i,
                forall|j: int|
                    0 <= j < i ==> (#[trigger] entries@[j]).0@ == self.entries@[j].0@
                        && entries@[j].1@ == self.entries@[j].1@,
            decreases self@.len() - i,
        {
            entries.push((self.entries[i].0.copy_key(), self.entries[i].1));
            i = i + 1;
        }
        let r = SortedMap { entries };
        assert(r@ =~= self@);
        r
    }
}

/// An ordered set kept as a vector sorted by key.
#[derive(Debug, Clone, PartialEq, Eq)]
pub struct SortedSet<K> {
    items: Vec<K>,
}

impl<K: OrderedKey> View for SortedSet<K> {
    type V = Seq<K::V>;

    closed spec fn view(&self) -> Seq<K::V> {
        self.items@.map_values(|k: K| k@)
    }
}

impl<K: OrderedKey> SortedSet<K> {
    pub open spec fn sorted(&self) -> bool {
        keys_sorted::<K>(self@)
    }

    pub fn new() -> (s: Self)
        ensures
            s@ == Seq::<K::V>::empty(),
            s.sorted(),
    {
        let s = SortedSet { items: Vec::new() };
        assert(s@ =~= Seq::<K::V>::empty());
        s
    }

    pub fn len(&self) -> (n: usize)
        ensures
            n == self@.len(),
    {
        self.items.len()
    }

    pub fn is_empty(&self) -> (b: bool)
        ensures
            b == (self@.len() == 0),
    {
        self.items.len() == 0
    }

    pub fn at(&self, i: usize) -> (k: &K)
        requires
            i < self@.len(),
        ensures
            k@ == self@[i as int],
    {
        &self.items[i]
    }

    fn position(&self, k: &K) -> (p: usize)
        ensures
            p == lower_bound::<K>(self@, k@),
            p <= self@.len(),
    {
        let mut i: usize = 0;
        while i < self.items.len()
            invariant
                i <= self.items@.len(),
                forall|j: int| 0 <= j < i ==> key_lt::<K>(#[trigger] self@[j], k@),
            decreases self.items@.len() - i,
        {
            let c = self.items[i].compare_key(k);
            if c >= 0 {
                proof {
                    lemma_lower_bound_is::<K>(self@, k@, i as int);
                }
                return i;
            }
            i = i + 1;
        }
        proof {
            lemma_lower_bound_is::<K>(self@, k@, i as int);
        }
        i
    }

    pub fn contains(&self, k: &K) -> (b: bool)
        ensures
            b == set_index::<K>(self@, k@).is_some(),
    {
        let p = self.position(k);
        if p < self.items.len() {
            let c = self.items[p].compare_key(k);
            proof {
                lemma_lex_order_antisym(K::order_bytes(self@[p as int]), K::order_bytes(k@));
                K::lemma_order_bytes_injective(self@[p as int], k@);
            }
            c == 0
        } else {
            false
        }
    }

    /// Insert `k` if it is not already present.
    pub fn insert(&mut self, k: K)
        ensures
            final(self)@ == set_insert::<K>(old(self)@, k@),
            old(self).sorted() ==> final(self).sorted(),
    {
        let p = self.position(&k);
        let ghost s = self@;
        let ghost kv = k@;
        let mut present = false;
        if p < self.items.len() {
            let c = self.items[p].compare_key(&k);
            proof {
                lemma_lex_order_antisym(K::order_bytes(self@[p as int]), K::order_bytes(k@));
                K::lemma_order_bytes_injective(self@[p as int], k@);
            }
            present = c == 0;
        }
        if !present {
            self.items.insert(p, k);
            assert(self@ =~= s.insert(p as int, kv));
        }
        proof {
            if keys_sorted::<K>(s) {
                lemma_set_insert_sorted::<K>(s, kv);
            }
        }
    }

    pub fn clear(&mut self)
        ensures
            final(self)@ == Seq::<K::V>::empty(),
            final(self).sorted(),
    {
        self.items.clear();
        assert(self@ =~= Seq::<K::V>::empty());
    }

    /// An independent copy.
    pub fn copy_set(&self) -> (r: Self)
        ensures
            r@ == self@,
    {
        let mut items: Vec<K> = Vec::new();
        let mut i: usize = 0;
        while i < self.items.len()
            invariant
                i <= self.items@.len(),
                items@.len() == i,
                forall|j: int| 0 <= j < i ==> (#[trigger] items@[j])@ == self@[j],
            decreases self.items@.len() - i,
        {
            items.push(self.items[i].copy_key());
            i = i + 1;
        }
        let r = SortedSet { items };
        assert(r@ =~= self@);
        r
    }
}

} // verus!
