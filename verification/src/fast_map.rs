//! Hash map and hash set wrappers whose contents are stated over `Map` and `Set`.
//!
//! Their contracts hold for key types that follow vstd's hashing model
//! (`obeys_key_model`), which covers the primitive types; the standard
//! hasher is covered by vstd's own axioms.

use vstd::prelude::*;
use std::borrow::Borrow;
use std::collections::hash_map;
use std::collections::hash_set;
use std::collections::{HashMap, HashSet};
use std::hash::Hash;
use std::cmp::Ordering;
use vstd::std_specs::cmp::OrdSpec;
use vstd::std_specs::iter::IteratorSpec;
use vstd::std_specs::hash::{
    obeys_key_model, contains_borrowed_key, maps_borrowed_key_to_value, borrowed_key_removed,
    set_contains_borrowed_key, sets_differ_by_borrowed_key, group_hash_axioms,
};

verus! {

broadcast use group_hash_axioms;

/// The standard hash map's mutable iterator, carried through opaquely.
#[verifier::external_type_specification]
#[verifier::external_body]
#[verifier::reject_recursive_types(K)]
#[verifier::reject_recursive_types(V)]
pub struct ExHashMapIterMut<'a, K: 'a, V: 'a>(hash_map::IterMut<'a, K, V>);

/// Calls `HashMap::iter_mut`. The iterator hands out each entry once, with
/// its value open to change; the keys stay unchanged, which is all that
/// is claimed.
#[verifier::external_body]
fn hash_map_iter_mut<'a, K, V>(m: &'a mut HashMap<K, V>) -> (it: hash_map::IterMut<'a, K, V>)
    ensures
        final(m)@.dom() == old(m)@.dom(),
{
    m.iter_mut()
}

/// Calls `HashMap::get_mut`. Claimed: the reference, when there is one,
/// points at the value that the key maps to; the map keeps its keys, and
/// afterwards maps the key to what the reference last held; every entry
/// whose key is not the one looked up keeps its value.
#[verifier::external_body]
fn hash_map_get_mut<'a, K: Eq + Hash + Borrow<Q>, V, Q: ?Sized + Eq + Hash>(m: &'a mut HashMap<K, V>, key: &Q) -> (r: Option<&'a mut V>)
    ensures
        obeys_key_model::<K>() ==> match r {
            Some(v) => {
                &&& maps_borrowed_key_to_value(old(m)@, key, *v)
                &&& final(m)@.dom() == old(m)@.dom()
                &&& maps_borrowed_key_to_value(final(m)@, key, *final(v))
                &&& forall|k2: K| #[trigger] final(m)@.contains_key(k2)
                    && !contains_borrowed_key(old(m)@.restrict(set![k2]), key) ==> final(m)@[k2] == old(m)@[k2]
            },
            None => !contains_borrowed_key(old(m)@, key) && final(m)@ == old(m)@,
        },
{
    m.get_mut(key)
}

/// Calls `Vec::from_iter` on a `HashMap`, whose consuming iterator moves
/// each key-value pair out of the map once, in an order that the hasher
/// decides. Claimed, for key types that follow vstd's hashing model: the
/// vector holds as many pairs as the map had entries, each pair is an entry
/// of the map, and every entry of the map is among them.
#[verifier::external_body]
fn hash_map_into_vec<K, V>(m: HashMap<K, V>) -> (v: Vec<(K, V)>)
    ensures
        obeys_key_model::<K>() ==> {
            &&& v@.len() == m@.len()
            &&& forall|i: int| 0 <= i < v@.len() ==> #[trigger] m@.contains_key(v@[i].0) && m@[v@[i].0] == v@[i].1
            &&& forall|k: K| #[trigger] m@.contains_key(k) ==> v@.contains((k, m@[k]))
        },
{
    Vec::from_iter(m)
}

/// Fast map wrapper.
pub struct FastMap<K, V> {
    inner: HashMap<K, V>,
}

impl<K, V> View for FastMap<K, V> {
    type V = Map<K, V>;

    closed spec fn view(&self) -> Map<K, V> {
        self.inner@
    }
}

impl<K, V> FastMap<K, V> {
    /// Creates an empty fast map.
    pub fn new() -> (m: Self)
        ensures
            m@ == Map::<K, V>::empty(),
    {
        FastMap { inner: HashMap::new() }
    }

    /// Returns true if the map contains no elements.
    pub fn is_empty(&self) -> (b: bool)
        ensures
            b == self@.is_empty(),
    {
        self.inner.is_empty()
    }

    /// Returns the number of elements in the map.
    pub fn len(&self) -> (n: usize)
        ensures
            obeys_key_model::<K>() ==> n == self@.len(),
    {
        self.inner.len()
    }

    /// Removes all key-value pairs from the map.
    pub fn clear(&mut self)
        ensures
            final(self)@ == Map::<K, V>::empty(),
    {
        self.inner.clear();
    }

    /// Returns an iterator over key-value pairs; it yields each entry once,
    /// in an order that the hasher decides.
    pub fn iter(&self) -> (it: hash_map::Iter<'_, K, V>)
        ensures
            obeys_key_model::<K>() ==> {
                &&& it.remaining().len() == self@.len()
                &&& it.remaining().no_duplicates()
                &&& it.remaining().unref().to_set() == self@.kv_pairs()
            },
    {
        self.inner.iter()
    }

    /// Returns a mutable iterator over key-value pairs; the keys stay unchanged.
    pub fn iter_mut(&mut self) -> (it: hash_map::IterMut<'_, K, V>)
        ensures
            final(self)@.dom() == old(self)@.dom(),
    {
        hash_map_iter_mut(&mut self.inner)
    }

    /// Creates a fast map with the requested capacity.
    pub fn with_capacity(capacity: usize) -> (m: Self)
        ensures
            m@ == Map::<K, V>::empty(),
    {
        FastMap { inner: HashMap::with_capacity(capacity) }
    }
}

impl<K: Eq + Hash, V> FastMap<K, V> {
    /// Inserts a key-value pair into the map, returning the value that the
    /// key held before.
    pub fn insert(&mut self, key: K, value: V) -> (r: Option<V>)
        ensures
            obeys_key_model::<K>() ==> {
                &&& final(self)@ == old(self)@.insert(key, value)
                &&& match r {
                    Some(v) => old(self)@.contains_key(key) && v == old(self)@[key],
                    None => !old(self)@.contains_key(key),
                }
                &&& final(self)@.len() == old(self)@.len() + (if old(self)@.contains_key(key) { 0int } else { 1int })
            },
    {
        proof {
            law_map_keys_finite(&*self);
        }
        self.inner.insert(key, value)
    }

    /// Returns a shared reference to the value corresponding to the key.
    pub fn get<Q: ?Sized + Eq + Hash>(&self, key: &Q) -> (r: Option<&V>)
        where
            K: Borrow<Q>,
        ensures
            obeys_key_model::<K>() ==> match r {
                Some(v) => maps_borrowed_key_to_value(self@, key, *v),
                None => !contains_borrowed_key(self@, key),
            },
    {
        self.inner.get(key)
    }

    /// Returns a mutable reference to the value corresponding to the key.
    pub fn get_mut<Q: ?Sized + Eq + Hash>(&mut self, key: &Q) -> (r: Option<&mut V>)
        where
            K: Borrow<Q>,
        ensures
            obeys_key_model::<K>() ==> match r {
                Some(v) => {
                    &&& maps_borrowed_key_to_value(old(self)@, key, *v)
                    &&& final(self)@.dom() == old(self)@.dom()
                    &&& maps_borrowed_key_to_value(final(self)@, key, *final(v))
                    &&& forall|k2: K| #[trigger] final(self)@.contains_key(k2)
                        && !contains_borrowed_key(old(self)@.restrict(set![k2]), key) ==> final(self)@[k2] == old(self)@[k2]
                },
                None => !contains_borrowed_key(old(self)@, key) && final(self)@ == old(self)@,
            },
    {
        hash_map_get_mut(&mut self.inner, key)
    }

    /// Returns true if the map contains a value for the specified key.
    pub fn contains_key<Q: ?Sized + Eq + Hash>(&self, key: &Q) -> (b: bool)
        where
            K: Borrow<Q>,
        ensures
            obeys_key_model::<K>() ==> b == contains_borrowed_key(self@, key),
    {
        self.inner.contains_key(key)
    }

    /// Removes a key from the map, returning the value if the key was in the map.
    pub fn remove<Q: ?Sized + Eq + Hash>(&mut self, key: &Q) -> (r: Option<V>)
        where
            K: Borrow<Q>,
        ensures
            obeys_key_model::<K>() ==> {
                &&& borrowed_key_removed(old(self)@, final(self)@, key)
                &&& match r {
                    Some(v) => maps_borrowed_key_to_value(old(self)@, key, v),
                    None => !contains_borrowed_key(old(self)@, key),
                }
            },
    {
        self.inner.remove(key)
    }
}

/// `K`'s `cmp` returns what its specification says.
pub open spec fn ord_follows_spec<K: Ord>() -> bool {
    K::obeys_cmp_spec()
}

/// `a` compares less than `b`.
pub open spec fn key_lt<K: Ord>(a: K, b: K) -> bool {
    a.cmp_spec(&b) == Ordering::Less
}

/// `a` compares greater than `b`.
pub open spec fn key_gt<K: Ord>(a: K, b: K) -> bool {
    a.cmp_spec(&b) == Ordering::Greater
}

/// `K`'s comparison follows its specification and orders keys the way `Ord`
/// documents: `a < b` exactly when `b > a`, and `a < b <= c` gives `a < c`.
pub open spec fn orders_keys<K: Ord>() -> bool {
    &&& ord_follows_spec::<K>()
    &&& forall|a: K, b: K| #[trigger] key_lt(a, b) == key_gt(b, a)
    &&& forall|a: K, b: K, c: K|
        #[trigger] key_lt(a, b) && !#[trigger] key_gt(b, c) ==> key_lt(a, c)
}

/// No entry's key compares greater than the key of an entry after it.
pub open spec fn keys_in_order<K: Ord, V>(s: Seq<(&K, &V)>) -> bool {
    forall|i: int, j: int| 0 <= i < j < s.len() ==> !key_gt(*s[i].0, *s[j].0)
}

/// Takes the next item of an iterator that follows vstd's iterator laws.
fn advance<I: Iterator>(it: &mut I) -> (r: Option<I::Item>)
    ensures
        (*old(it)).obeys_prophetic_iter_laws() ==> if (*old(it)).remaining().len() > 0 {
            &&& (*final(it)).remaining() == (*old(it)).remaining().drop_first()
            &&& r == Some((*old(it)).remaining()[0])
        } else {
            (*final(it)).remaining() == (*old(it)).remaining() && r is None
        },
{
    it.next()
}

/// Whether `a` compares less than `b`, by `Ord::cmp`.
fn key_less<K: Ord>(a: &K, b: &K) -> (r: bool)
    ensures
        ord_follows_spec::<K>() ==> r == key_lt(*a, *b),
{
    match a.cmp(b) {
        Ordering::Less => true,
        _ => false,
    }
}

/// The position before which `x` goes in key-sorted `s`: after every entry
/// whose key `x`'s key is not less than, before the first one it is less than.
fn insert_position<K: Ord, V>(s: &Vec<(&K, &V)>, x: (&K, &V)) -> (p: usize)
    ensures
        p <= s@.len(),
        ord_follows_spec::<K>() ==> forall|q: int| 0 <= q < p ==> !key_lt(*x.0, *#[trigger] s@[q].0),
        ord_follows_spec::<K>() && p < s@.len() ==> key_lt(*x.0, *s@[p as int].0),
{
    let mut p: usize = 0;
    while p < s.len()
        invariant
            p <= s@.len(),
            ord_follows_spec::<K>() ==> forall|q: int| 0 <= q < p ==> !key_lt(*x.0, *#[trigger] s@[q].0),
        ensures
            p <= s@.len(),
            ord_follows_spec::<K>() ==> forall|q: int| 0 <= q < p ==> !key_lt(*x.0, *#[trigger] s@[q].0),
            ord_follows_spec::<K>() && p < s@.len() ==> key_lt(*x.0, *s@[p as int].0),
        decreases s@.len() - p,
    {
        if key_less(x.0, s[p].0) {
            break;
        }
        p = p + 1;
    }
    p
}

/// Putting `x` at its insert position keeps a key-sorted sequence sorted.
proof fn lemma_insert_keeps_order<K: Ord, V>(s: Seq<(&K, &V)>, p: int, x: (&K, &V))
    requires
        orders_keys::<K>(),
        keys_in_order(s),
        0 <= p <= s.len(),
        forall|q: int| 0 <= q < p ==> !key_lt(*x.0, *#[trigger] s[q].0),
        p < s.len() ==> key_lt(*x.0, *s[p].0),
    ensures
        keys_in_order(s.insert(p, x)),
{
    let t = s.insert(p, x);
    s.insert_ensures(p, x);
    assert forall|a: int, b: int| 0 <= a < b < t.len() implies !key_gt(*t[a].0, *t[b].0) by {
        if b < p {
            assert(t[a] == s[a] && t[b] == s[b]);
        } else if b == p {
            assert(t[a] == s[a]);
            assert(!key_lt(*x.0, *s[a].0));
        } else if a > p {
            assert(t[a] == s[a - 1] && t[b] == s[b - 1]);
        } else if a == p {
            assert(t[b] == s[b - 1]);
            assert(key_lt(*x.0, *s[p].0));
            if b - 1 > p {
                assert(!key_gt(*s[p].0, *s[b - 1].0));
            }
        } else {
            assert(t[a] == s[a] && t[b] == s[b - 1]);
        }
    }
}

/// Inserting at a position keeps every element and adds only the new one.
proof fn lemma_insert_members<T>(s: Seq<T>, p: int, x: T)
    requires
        0 <= p <= s.len(),
    ensures
        s.insert(p, x).contains(x),
        forall|y: T| s.contains(y) ==> #[trigger] s.insert(p, x).contains(y),
        forall|y: T| #[trigger] s.insert(p, x).contains(y) ==> s.contains(y) || y == x,
{
    let t = s.insert(p, x);
    s.insert_ensures(p, x);
    assert(t[p] == x);
    assert forall|y: T| s.contains(y) implies #[trigger] t.contains(y) by {
        let w = choose|w: int| 0 <= w < s.len() && s[w] == y;
        if w < p {
            assert(t[w] == y);
        } else {
            assert(t[w + 1] == y);
        }
    }
    assert forall|y: T| #[trigger] t.contains(y) implies s.contains(y) || y == x by {
        let w = choose|w: int| 0 <= w < t.len() && t[w] == y;
        if w < p {
            assert(s[w] == y);
        } else if w > p {
            assert(s[w - 1] == y);
        }
    }
}

/// Entries rearranged by an insertion sort on their keys.
fn sort_entries_by_key<'a, K: Ord, V>(all: &Vec<(&'a K, &'a V)>) -> (sorted: Vec<(&'a K, &'a V)>)
    ensures
        sorted@.len() == all@.len(),
        forall|q: int| 0 <= q < all@.len() ==> sorted@.contains(#[trigger] all@[q]),
        forall|q: int| 0 <= q < sorted@.len() ==> all@.contains(#[trigger] sorted@[q]),
        orders_keys::<K>() ==> keys_in_order(sorted@),
{
    let mut sorted: Vec<(&K, &V)> = Vec::new();
    let mut i: usize = 0;
    while i < all.len()
        invariant
            i <= all@.len(),
            sorted@.len() == i,
            forall|q: int| 0 <= q < i ==> sorted@.contains(#[trigger] all@[q]),
            forall|q: int| 0 <= q < sorted@.len() ==> all@.take(i as int).contains(#[trigger] sorted@[q]),
            orders_keys::<K>() ==> keys_in_order(sorted@),
        decreases all@.len() - i,
    {
        let x = all[i];
        let p = insert_position(&sorted, x);
        let ghost before = sorted@;
        proof {
            lemma_insert_members(before, p as int, x);
            if orders_keys::<K>() {
                lemma_insert_keeps_order(before, p as int, x);
            }
        }
        sorted.insert(p, x);
        proof {
            let prefix = all@.take(i as int);
            assert(all@.take(i as int + 1) =~= prefix.push(x));
            assert forall|q: int| 0 <= q < i + 1 implies sorted@.contains(#[trigger] all@[q]) by {
                if q < i {
                    assert(before.contains(all@[q]));
                }
            }
            assert forall|q: int| 0 <= q < sorted@.len() implies all@.take(i as int + 1).contains(#[trigger] sorted@[q]) by {
                let y = sorted@[q];
                assert(sorted@.contains(y));
                if y != x {
                    assert(before.contains(y));
                    let w = choose|w: int| 0 <= w < before.len() && before[w] == y;
                    assert(prefix.contains(before[w]));
                    let v = choose|v: int| 0 <= v < prefix.len() && prefix[v] == y;
                    assert(all@.take(i as int + 1)[v] == y);
                } else {
                    assert(all@.take(i as int + 1)[i as int] == x);
                }
            }
        }
        i = i + 1;
    }
    proof {
        assert(all@.take(all@.len() as int) =~= all@);
    }
    sorted
}

/// No pair's key compares greater than the key of a pair after it.
pub open spec fn pairs_in_order<K: Ord, V>(s: Seq<(K, V)>) -> bool {
    forall|i: int, j: int| 0 <= i < j < s.len() ==> !key_gt(s[i].0, s[j].0)
}

/// The position before which a pair with key `x` goes in key-sorted `s`.
fn pair_insert_position<K: Ord, V>(s: &Vec<(K, V)>, x: &K) -> (p: usize)
    ensures
        p <= s@.len(),
        ord_follows_spec::<K>() ==> forall|q: int| 0 <= q < p ==> !key_lt(*x, #[trigger] s@[q].0),
        ord_follows_spec::<K>() && p < s@.len() ==> key_lt(*x, s@[p as int].0),
{
    let mut p: usize = 0;
    while p < s.len()
        invariant
            p <= s@.len(),
            ord_follows_spec::<K>() ==> forall|q: int| 0 <= q < p ==> !key_lt(*x, #[trigger] s@[q].0),
        ensures
            p <= s@.len(),
            ord_follows_spec::<K>() ==> forall|q: int| 0 <= q < p ==> !key_lt(*x, #[trigger] s@[q].0),
            ord_follows_spec::<K>() && p < s@.len() ==> key_lt(*x, s@[p as int].0),
        decreases s@.len() - p,
    {
        if key_less(x, &s[p].0) {
            break;
        }
        p = p + 1;
    }
    p
}

/// Putting a pair at its insert position keeps a key-sorted sequence sorted.
proof fn lemma_pair_insert_keeps_order<K: Ord, V>(s: Seq<(K, V)>, p: int, x: (K, V))
    requires
        orders_keys::<K>(),
        pairs_in_order(s),
        0 <= p <= s.len(),
        forall|q: int| 0 <= q < p ==> !key_lt(x.0, #[trigger] s[q].0),
        p < s.len() ==> key_lt(x.0, s[p].0),
    ensures
        pairs_in_order(s.insert(p, x)),
{
    let t = s.insert(p, x);
    s.insert_ensures(p, x);
    assert forall|a: int, b: int| 0 <= a < b < t.len() implies !key_gt(t[a].0, t[b].0) by {
        if b < p {
            assert(t[a] == s[a] && t[b] == s[b]);
        } else if b == p {
            assert(t[a] == s[a]);
            assert(!key_lt(x.0, s[a].0));
        } else if a > p {
            assert(t[a] == s[a - 1] && t[b] == s[b - 1]);
        } else if a == p {
            assert(t[b] == s[b - 1]);
            assert(key_lt(x.0, s[p].0));
            if b - 1 > p {
                assert(!key_gt(s[p].0, s[b - 1].0));
            }
        } else {
            assert(t[a] == s[a] && t[b] == s[b - 1]);
        }
    }
}

/// Pairs rearranged by an insertion sort on their keys.
fn sort_pairs_by_key<K: Ord, V>(all: Vec<(K, V)>) -> (sorted: Vec<(K, V)>)
    ensures
        sorted@.len() == all@.len(),
        forall|q: int| 0 <= q < all@.len() ==> sorted@.contains(#[trigger] all@[q]),
        forall|q: int| 0 <= q < sorted@.len() ==> all@.contains(#[trigger] sorted@[q]),
        orders_keys::<K>() ==> pairs_in_order(sorted@),
{
    let ghost whole = all@;
    let mut rest = all;
    let mut sorted: Vec<(K, V)> = Vec::new();
    while rest.len() > 0
        invariant
            rest@.len() <= whole.len(),
            rest@ == whole.take(rest@.len() as int),
            sorted@.len() + rest@.len() == whole.len(),
            forall|q: int| rest@.len() <= q < whole.len() ==> sorted@.contains(#[trigger] whole[q]),
            forall|q: int| 0 <= q < sorted@.len() ==> whole.contains(#[trigger] sorted@[q]),
            orders_keys::<K>() ==> pairs_in_order(sorted@),
        decreases rest@.len(),
    {
        let ghost n = rest@.len();
        let x = rest.pop().unwrap();
        proof {
            assert(x == whole[n - 1]);
            assert(rest@ =~= whole.take(n - 1));
        }
        let p = pair_insert_position(&sorted, &x.0);
        let ghost before = sorted@;
        proof {
            lemma_insert_members(before, p as int, x);
            if orders_keys::<K>() {
                lemma_pair_insert_keeps_order(before, p as int, x);
            }
        }
        sorted.insert(p, x);
        proof {
            assert forall|q: int| n - 1 <= q < whole.len() implies sorted@.contains(#[trigger] whole[q]) by {
                if q >= n {
                    assert(before.contains(whole[q]));
                }
            }
            assert forall|q: int| 0 <= q < sorted@.len() implies whole.contains(#[trigger] sorted@[q]) by {
                let y = sorted@[q];
                assert(sorted@.contains(y));
                if y != x {
                    assert(before.contains(y));
                    let w = choose|w: int| 0 <= w < before.len() && before[w] == y;
                    assert(whole.contains(before[w]));
                } else {
                    assert(whole[n - 1] == x);
                }
            }
        }
    }
    proof {
        assert(rest@.len() == 0);
    }
    sorted
}

impl<K: Eq + Hash + Ord, V> FastMap<K, V> {
    /// Returns all entries sorted by key.
    pub fn sorted_entries(&self) -> (r: Vec<(&K, &V)>)
        ensures
            obeys_key_model::<K>() ==> {
                &&& r@.len() == self@.len()
                &&& forall|i: int| 0 <= i < r@.len()
                    ==> #[trigger] self@.contains_key(*r@[i].0) && self@[*r@[i].0] == *r@[i].1
                &&& forall|k: K| #[trigger] self@.contains_key(k) ==> r@.contains((&k, &self@[k]))
            },
            orders_keys::<K>() ==> keys_in_order(r@),
    {
        let n = self.inner.len();
        let mut it = self.inner.iter();
        let ghost init = it.remaining();
        let mut all: Vec<(&K, &V)> = Vec::new();
        let mut k: usize = 0;
        while k < n
            invariant
                k <= n,
                all@.len() == k,
                init == all@ + it.remaining(),
            ensures
                all@.len() == k,
                init == all@ + it.remaining(),
                k >= n || it.remaining().len() == 0,
            decreases n - k,
        {
            match advance(&mut it) {
                Some(e) => {
                    all.push(e);
                    assert(init =~= all@ + it.remaining());
                },
                None => {
                    break;
                },
            }
            k = k + 1;
        }
        proof {
            if obeys_key_model::<K>() {
                assert(init.len() == self@.len());
                assert(all@ =~= init);
            }
        }
        sort_entries_by_key(&all)
    }

    /// Consumes the map and returns all entries sorted by key.
    pub fn into_sorted_entries(self) -> (r: Vec<(K, V)>)
        ensures
            obeys_key_model::<K>() ==> {
                &&& r@.len() == self@.len()
                &&& forall|i: int| 0 <= i < r@.len() ==> #[trigger] self@.contains_key(r@[i].0) && self@[r@[i].0] == r@[i].1
                &&& forall|k: K| #[trigger] self@.contains_key(k) ==> r@.contains((k, self@[k]))
            },
            orders_keys::<K>() ==> pairs_in_order(r@),
    {
        let ghost m = self@;
        let all = hash_map_into_vec(self.inner);
        let sorted = sort_pairs_by_key(all);
        proof {
            if obeys_key_model::<K>() {
                assert forall|i: int| 0 <= i < sorted@.len() implies #[trigger] m.contains_key(sorted@[i].0) && m[sorted@[i].0] == sorted@[i].1 by {
                    assert(all@.contains(sorted@[i]));
                    let w = choose|w: int| 0 <= w < all@.len() && all@[w] == sorted@[i];
                    assert(m.contains_key(all@[w].0));
                }
                assert forall|k: K| #[trigger] m.contains_key(k) implies sorted@.contains((k, m[k])) by {
                    assert(all@.contains((k, m[k])));
                    let w = choose|w: int| 0 <= w < all@.len() && all@[w] == (k, m[k]);
                    assert(sorted@.contains(all@[w]));
                }
            }
        }
        sorted
    }
}

/// Fast set wrapper.
pub struct FastSet<T> {
    inner: HashSet<T>,
}

impl<T> View for FastSet<T> {
    type V = Set<T>;

    closed spec fn view(&self) -> Set<T> {
        self.inner@
    }
}

impl<T> FastSet<T> {
    /// Creates an empty fast set.
    pub fn new() -> (s: Self)
        ensures
            s@ == Set::<T>::empty(),
    {
        FastSet { inner: HashSet::new() }
    }

    /// Returns true if the set contains no elements.
    pub fn is_empty(&self) -> (b: bool)
        ensures
            b == self@.is_empty(),
    {
        self.inner.is_empty()
    }

    /// Returns the number of elements in the set.
    pub fn len(&self) -> (n: usize)
        ensures
            obeys_key_model::<T>() ==> n == self@.len(),
    {
        self.inner.len()
    }

    /// Removes all elements from the set.
    pub fn clear(&mut self)
        ensures
            final(self)@ == Set::<T>::empty(),
    {
        self.inner.clear();
    }

    /// Returns an iterator over all values in the set; it yields each value
    /// once, in an order that the hasher decides.
    pub fn iter(&self) -> (it: hash_set::Iter<'_, T>)
        ensures
            obeys_key_model::<T>() ==> {
                &&& it.remaining().len() == self@.len()
                &&& it.remaining().no_duplicates()
                &&& it.remaining().unref().to_set() == self@
            },
    {
        self.inner.iter()
    }

    /// Creates a fast set with the requested capacity.
    pub fn with_capacity(capacity: usize) -> (s: Self)
        ensures
            s@ == Set::<T>::empty(),
    {
        FastSet { inner: HashSet::with_capacity(capacity) }
    }
}

impl<T: Eq + Hash> FastSet<T> {
    /// Adds a value to the set. Returns true if the value was not present.
    pub fn insert(&mut self, value: T) -> (b: bool)
        ensures
            obeys_key_model::<T>() ==> {
                &&& final(self)@ == old(self)@.insert(value)
                &&& b == !old(self)@.contains(value)
                &&& final(self)@.len() == old(self)@.len() + (if b { 1int } else { 0int })
            },
    {
        proof {
            law_set_values_finite(&*self);
        }
        self.inner.insert(value)
    }

    /// Returns true if the set contains the value.
    pub fn contains<Q: ?Sized + Eq + Hash>(&self, value: &Q) -> (b: bool)
        where
            T: Borrow<Q>,
        ensures
            obeys_key_model::<T>() ==> b == set_contains_borrowed_key(self@, value),
    {
        self.inner.contains(value)
    }

    /// Removes a value from the set. Returns true if the value existed.
    pub fn remove<Q: ?Sized + Eq + Hash>(&mut self, value: &Q) -> (b: bool)
        where
            T: Borrow<Q>,
        ensures
            obeys_key_model::<T>() ==> {
                &&& sets_differ_by_borrowed_key(old(self)@, final(self)@, value)
                &&& b == set_contains_borrowed_key(old(self)@, value)
            },
    {
        self.inner.remove(value)
    }
}

/// A fast map holds finitely many keys.
pub proof fn law_map_keys_finite<K, V>(m: &FastMap<K, V>)
    ensures
        m@.dom().finite(),
{
    vstd::std_specs::hash::axiom_hashmap_view_finite_dom(m.inner);
}

/// A fast set holds finitely many values.
pub proof fn law_set_values_finite<T>(s: &FastSet<T>)
    ensures
        s@.finite(),
{
    vstd::std_specs::hash::axiom_spec_hash_keys_iter(&s.inner);
    let listed = vstd::std_specs::hash::spec_hash_keys_iter(&s.inner).remaining().unref();
    vstd::seq_lib::seq_to_set_is_finite(listed);
}

/// Removing a key from a finite map shrinks it by one exactly when the key
/// was there.
pub proof fn law_map_len_after_remove<K, V>(before: Map<K, V>, after: Map<K, V>, k: K)
    requires
        before.dom().finite(),
        borrowed_key_removed::<K, V, K>(before, after, &k),
    ensures
        after.len() == before.len() - (if before.contains_key(k) { 1int } else { 0int }),
{
    if !before.contains_key(k) {
        assert(before.remove(k) =~= before);
    }
}

/// Removing a value from a finite set shrinks it by one exactly when the
/// value was there.
pub proof fn law_set_len_after_remove<T>(before: Set<T>, after: Set<T>, x: T)
    requires
        before.finite(),
        sets_differ_by_borrowed_key::<T, T>(before, after, &x),
    ensures
        after.len() == before.len() - (if before.contains(x) { 1int } else { 0int }),
{
    if !before.contains(x) {
        assert(before.remove(x) =~= before);
    }
}

/// Writing through the reference that `get_mut` hands out for key `k`
/// changes the entry of `k` and nothing else: the map afterwards is the map
/// before with `k` mapped to the written value.
pub proof fn law_get_mut_changes_only_its_key<K, V>(before: Map<K, V>, after: Map<K, V>, k: K, v: V)
    requires
        after.dom() == before.dom(),
        maps_borrowed_key_to_value::<K, V, K>(after, &k, v),
        forall|k2: K| #[trigger] after.contains_key(k2)
            && !contains_borrowed_key::<K, V, K>(before.restrict(set![k2]), &k) ==> after[k2] == before[k2],
    ensures
        after == before.insert(k, v),
{
    assert forall|k2: K| #[trigger] after.contains_key(k2) && k2 != k implies after[k2] == before[k2] by {
        assert(!before.restrict(set![k2]).contains_key(k));
    }
    assert(after =~= before.insert(k, v));
}


/// A key looked up after it was inserted is found, with the inserted value
/// (the map after `insert(k, v)` is `m.insert(k, v)`).
pub proof fn law_get_after_insert<K, V>(m: Map<K, V>, k: K, v: V)
    ensures
        contains_borrowed_key::<K, V, K>(m.insert(k, v), &k),
        maps_borrowed_key_to_value::<K, V, K>(m.insert(k, v), &k, v),
{
}

/// `get` finds a key exactly when `contains_key` reports it, and then
/// gives the value the map holds for it.
pub proof fn law_get_agrees_with_contains_key<K, V>(m: Map<K, V>, k: K)
    ensures
        contains_borrowed_key::<K, V, K>(m, &k) ==> maps_borrowed_key_to_value::<K, V, K>(m, &k, m[k]),
        !contains_borrowed_key::<K, V, K>(m, &k) ==> forall|v: V| !#[trigger] maps_borrowed_key_to_value::<K, V, K>(m, &k, v),
{
}

/// A key looked up after it was removed is not found.
pub proof fn law_get_after_remove<K, V>(before: Map<K, V>, after: Map<K, V>, k: K)
    requires
        borrowed_key_removed::<K, V, K>(before, after, &k),
    ensures
        !contains_borrowed_key::<K, V, K>(after, &k),
        forall|v: V| !#[trigger] maps_borrowed_key_to_value::<K, V, K>(after, &k, v),
{
}

/// A value is in a set after it was inserted.
pub proof fn law_set_contains_after_insert<T>(s: Set<T>, x: T)
    ensures
        set_contains_borrowed_key::<T, T>(s.insert(x), &x),
{
}

/// A value is not in a set after it was removed, and the other values stay.
pub proof fn law_set_contains_after_remove<T>(before: Set<T>, after: Set<T>, x: T)
    requires
        sets_differ_by_borrowed_key::<T, T>(before, after, &x),
    ensures
        !set_contains_borrowed_key::<T, T>(after, &x),
        forall|y: T| y != x ==> (#[trigger] after.contains(y) <==> before.contains(y)),
{
}

/// `Ord` on the keys is total: two different keys compare one way or the
/// other.
pub open spec fn keys_total<K: Ord>() -> bool {
    forall|a: K, b: K| #![trigger key_lt(a, b)] #![trigger key_gt(a, b)] a != b ==> key_lt(a, b) || key_gt(a, b)
}

/// A listing of a map's keys, as long as the map, holds each key once.
proof fn lemma_listing_keys_distinct<K, V>(ks: Seq<K>, m: Map<K, V>)
    requires
        ks.len() == m.len(),
        forall|i: int| 0 <= i < ks.len() ==> #[trigger] m.contains_key(ks[i]),
        forall|k: K| #[trigger] m.contains_key(k) ==> ks.contains(k),
    ensures
        forall|i: int, j: int| 0 <= i < j < ks.len() ==> ks[i] != ks[j],
{
    assert(ks.to_set() =~= m.dom());
    assert forall|i: int, j: int| 0 <= i < j < ks.len() implies ks[i] != ks[j] by {
        if ks[i] == ks[j] {
            let r = ks.remove(j);
            assert(r.to_set() =~= ks.to_set()) by {
                assert forall|x: K| ks.to_set().contains(x) implies r.to_set().contains(x) by {
                    let t = choose|t: int| 0 <= t < ks.len() && ks[t] == x;
                    if t < j {
                        assert(r[t] == x);
                    } else if t > j {
                        assert(r[t - 1] == x);
                    } else {
                        assert(r[i] == x);
                    }
                }
                assert forall|x: K| r.to_set().contains(x) implies ks.to_set().contains(x) by {
                    let t = choose|t: int| 0 <= t < r.len() && r[t] == x;
                    if t < j {
                        assert(ks[t] == x);
                    } else {
                        assert(ks[t + 1] == x);
                    }
                }
            }
            r.lemma_cardinality_of_set();
        }
    }
}

/// Two key-sorted listings of the same distinct keys agree position by
/// position on their first `n` keys.
proof fn lemma_sorted_keys_agree<K: Ord>(ka: Seq<K>, kb: Seq<K>, n: nat)
    requires
        orders_keys::<K>(),
        keys_total::<K>(),
        ka.len() == kb.len(),
        n <= ka.len(),
        forall|i: int, j: int| 0 <= i < j < ka.len() ==> ka[i] != ka[j],
        forall|i: int, j: int| 0 <= i < j < kb.len() ==> kb[i] != kb[j],
        forall|i: int| 0 <= i < ka.len() ==> kb.contains(#[trigger] ka[i]),
        forall|i: int| 0 <= i < kb.len() ==> ka.contains(#[trigger] kb[i]),
        forall|i: int, j: int| 0 <= i < j < ka.len() ==> !key_gt(ka[i], ka[j]),
        forall|i: int, j: int| 0 <= i < j < kb.len() ==> !key_gt(kb[i], kb[j]),
    ensures
        forall|i: int| 0 <= i < n ==> ka[i] == kb[i],
    decreases n,
{
    if n > 0 {
        lemma_sorted_keys_agree(ka, kb, (n - 1) as nat);
        let i = n - 1;
        let x = ka[i];
        let y = kb[i];
        if x != y {
            assert(kb.contains(ka[i]));
            assert(ka.contains(kb[i]));
            let p = choose|p: int| 0 <= p < kb.len() && kb[p] == x;
            let q = choose|q: int| 0 <= q < ka.len() && ka[q] == y;
            if p < i {
                assert(ka[p] == kb[p]);
                assert(false);
            }
            if q < i {
                assert(ka[q] == kb[q]);
                assert(false);
            }
            assert(!key_gt(kb[i], kb[p]));
            assert(key_lt(y, x) || key_gt(y, x));
            assert(!key_gt(ka[i], ka[q]));
            assert(key_lt(x, y) || key_gt(x, y));
            assert(key_lt(y, x) == key_gt(x, y));
            assert(false);
        }
    }
}

/// The borrowed and the owned sorted listings of one map agree: when `Ord`
/// on the keys is a total order, what `sorted_entries` lists and what
/// `into_sorted_entries` lists are the same entries in the same order.
pub proof fn law_sorted_listings_agree<K: Ord, V>(m: Map<K, V>, a: Seq<(&K, &V)>, b: Seq<(K, V)>)
    requires
        orders_keys::<K>(),
        keys_total::<K>(),
        a.len() == m.len(),
        forall|i: int| 0 <= i < a.len() ==> #[trigger] m.contains_key(*a[i].0) && m[*a[i].0] == *a[i].1,
        forall|k: K| #[trigger] m.contains_key(k) ==> a.contains((&k, &m[k])),
        keys_in_order(a),
        b.len() == m.len(),
        forall|i: int| 0 <= i < b.len() ==> #[trigger] m.contains_key(b[i].0) && m[b[i].0] == b[i].1,
        forall|k: K| #[trigger] m.contains_key(k) ==> b.contains((k, m[k])),
        pairs_in_order(b),
    ensures
        a.len() == b.len(),
        forall|i: int| 0 <= i < a.len() ==> *(#[trigger] a[i]).0 == b[i].0 && *a[i].1 == b[i].1,
{
    let ka = a.map_values(|p: (&K, &V)| *p.0);
    let kb = b.map_values(|p: (K, V)| p.0);
    assert forall|i: int| 0 <= i < ka.len() implies #[trigger] m.contains_key(ka[i]) by {
        assert(m.contains_key(*a[i].0));
    }
    assert forall|k: K| #[trigger] m.contains_key(k) implies ka.contains(k) by {
        assert(a.contains((&k, &m[k])));
        let i = choose|i: int| 0 <= i < a.len() && a[i] == (&k, &m[k]);
        assert(ka[i] == k);
    }
    assert forall|i: int| 0 <= i < kb.len() implies #[trigger] m.contains_key(kb[i]) by {
        assert(m.contains_key(b[i].0));
    }
    assert forall|k: K| #[trigger] m.contains_key(k) implies kb.contains(k) by {
        assert(b.contains((k, m[k])));
        let i = choose|i: int| 0 <= i < b.len() && b[i] == (k, m[k]);
        assert(kb[i] == k);
    }
    lemma_listing_keys_distinct(ka, m);
    lemma_listing_keys_distinct(kb, m);
    assert forall|i: int| 0 <= i < ka.len() implies kb.contains(#[trigger] ka[i]) by {
        assert(m.contains_key(ka[i]));
    }
    assert forall|i: int| 0 <= i < kb.len() implies ka.contains(#[trigger] kb[i]) by {
        assert(m.contains_key(kb[i]));
    }
    assert forall|i: int, j: int| 0 <= i < j < ka.len() implies !key_gt(ka[i], ka[j]) by {
        assert(!key_gt(*a[i].0, *a[j].0));
    }
    assert forall|i: int, j: int| 0 <= i < j < kb.len() implies !key_gt(kb[i], kb[j]) by {
        assert(!key_gt(b[i].0, b[j].0));
    }
    lemma_sorted_keys_agree(ka, kb, ka.len());
    assert forall|i: int| 0 <= i < a.len() implies *(#[trigger] a[i]).0 == b[i].0 && *a[i].1 == b[i].1 by {
        assert(ka[i] == kb[i]);
        assert(m.contains_key(*a[i].0));
        assert(m.contains_key(b[i].0));
    }
}

} // verus!
