//! Text order and key-sorted views: the lexicographic order of strings by
//! character (which is the order of `str`), and the order in which the
//! entries of a map are listed when sorted by key.

use vstd::prelude::*;
use crate::text::chars_of;

verus! {

/// `a` sorts strictly before `b`: at the first character where they differ
/// `a`'s is smaller, or `a` is a proper prefix of `b`.
pub open spec fn lex_lt(a: Seq<char>, b: Seq<char>) -> bool
    decreases a.len(),
{
    if a.len() == 0 {
        b.len() > 0
    } else if b.len() == 0 {
        false
    } else if a[0] != b[0] {
        a[0] < b[0]
    } else {
        lex_lt(a.drop_first(), b.drop_first())
    }
}

/// No text sorts before itself.
pub proof fn lemma_lex_irreflexive(a: Seq<char>)
    ensures
        !lex_lt(a, a),
    decreases a.len(),
{
    if a.len() > 0 {
        lemma_lex_irreflexive(a.drop_first());
    }
}

/// Two texts never sort before each other.
pub proof fn lemma_lex_asymmetric(a: Seq<char>, b: Seq<char>)
    ensures
        !(lex_lt(a, b) && lex_lt(b, a)),
    decreases a.len(),
{
    if a.len() > 0 && b.len() > 0 && a[0] == b[0] {
        lemma_lex_asymmetric(a.drop_first(), b.drop_first());
    }
}

/// Of two different texts one sorts before the other.
pub proof fn lemma_lex_total(a: Seq<char>, b: Seq<char>)
    ensures
        a == b || lex_lt(a, b) || lex_lt(b, a),
    decreases a.len(),
{
    if a.len() > 0 && b.len() > 0 && a[0] == b[0] {
        lemma_lex_total(a.drop_first(), b.drop_first());
        if a.drop_first() == b.drop_first() {
            assert(a =~= seq![a[0]] + a.drop_first());
            assert(b =~= seq![b[0]] + b.drop_first());
        }
    } else if a.len() > 0 && b.len() > 0 {
        assert(a[0] < b[0] || b[0] < a[0]);
    } else if a.len() == 0 && b.len() == 0 {
        assert(a =~= b);
    }
}

/// The order is transitive.
pub proof fn lemma_lex_transitive(a: Seq<char>, b: Seq<char>, c: Seq<char>)
    requires
        lex_lt(a, b),
        lex_lt(b, c),
    ensures
        lex_lt(a, c),
    decreases a.len(),
{
    if a.len() > 0 && b.len() > 0 && c.len() > 0 && a[0] == b[0] && b[0] == c[0] {
        lemma_lex_transitive(a.drop_first(), b.drop_first(), c.drop_first());
    }
}

proof fn lemma_lex_step(a: Seq<char>, b: Seq<char>, i: int)
    requires
        0 <= i < a.len(),
        i < b.len(),
        a[i] == b[i],
    ensures
        lex_lt(a.skip(i), b.skip(i)) == lex_lt(a.skip(i + 1), b.skip(i + 1)),
{
    assert(a.skip(i).drop_first() =~= a.skip(i + 1));
    assert(b.skip(i).drop_first() =~= b.skip(i + 1));
}

/// Whether the characters of `a` sort strictly before those of `b`.
pub fn chars_lt(a: &Vec<char>, b: &Vec<char>) -> (r: bool)
    ensures
        r == lex_lt(a@, b@),
{
    let mut i: usize = 0;
    assert(a@.skip(0) =~= a@);
    assert(b@.skip(0) =~= b@);
    while i < a.len() && i < b.len() && a[i] == b[i]
        invariant
            i <= a@.len(),
            i <= b@.len(),
            lex_lt(a@, b@) == lex_lt(a@.skip(i as int), b@.skip(i as int)),
        decreases a@.len() - i,
    {
        proof {
            lemma_lex_step(a@, b@, i as int);
        }
        i += 1;
    }
    if i == a.len() {
        i < b.len()
    } else if i == b.len() {
        false
    } else {
        proof {
            assert(a@.skip(i as int)[0] == a@[i as int]);
            assert(b@.skip(i as int)[0] == b@[i as int]);
        }
        let ca = a[i];
        let cb = b[i];
        ca < cb
    }
}

/// Whether string `a` sorts strictly before string `b`.
pub fn str_lt(a: &str, b: &str) -> (r: bool)
    ensures
        r == lex_lt(a@, b@),
{
    let va = chars_of(a);
    let vb = chars_of(b);
    chars_lt(&va, &vb)
}

/// Entry `x` is listed before entry `y`: its key sorts first, or the keys
/// are equal and `x` came first.
pub open spec fn key_before(keys: Seq<Seq<char>>, x: int, y: int) -> bool {
    lex_lt(keys[x], keys[y]) || (keys[x] == keys[y] && x < y)
}

/// `order` lists every index of `keys` once, by key.
pub open spec fn is_sorted_order(keys: Seq<Seq<char>>, order: Seq<usize>) -> bool {
    &&& order.len() == keys.len()
    &&& forall|k: int| 0 <= k < order.len() ==> #[trigger] order[k] < keys.len()
    &&& forall|a: int, b: int| 0 <= a < b < order.len() ==> key_before(keys, #[trigger] order[a] as int, #[trigger] order[b] as int)
    &&& forall|j: int| 0 <= j < keys.len() ==> #[trigger] lists(order, j)
}

/// `j` occurs in `order`.
pub open spec fn lists(order: Seq<usize>, j: int) -> bool {
    exists|k: int| 0 <= k < order.len() && #[trigger] order[k] == j
}

/// The indices of `keys` listed by key, equal keys in the order they come.
pub open spec fn sorted_order(keys: Seq<Seq<char>>) -> Seq<usize> {
    choose|o: Seq<usize>| is_sorted_order(keys, o)
}

proof fn lemma_before_asymmetric(keys: Seq<Seq<char>>, x: int, y: int)
    ensures
        !(key_before(keys, x, y) && key_before(keys, y, x)),
{
    lemma_lex_asymmetric(keys[x], keys[y]);
    lemma_lex_irreflexive(keys[x]);
}

proof fn lemma_before_total(keys: Seq<Seq<char>>, x: int, y: int)
    requires
        x != y,
    ensures
        key_before(keys, x, y) || key_before(keys, y, x),
{
    lemma_lex_total(keys[x], keys[y]);
}

proof fn lemma_before_transitive(keys: Seq<Seq<char>>, x: int, y: int, z: int)
    requires
        key_before(keys, x, y),
        key_before(keys, y, z),
    ensures
        key_before(keys, x, z),
{
    if lex_lt(keys[x], keys[y]) && lex_lt(keys[y], keys[z]) {
        lemma_lex_transitive(keys[x], keys[y], keys[z]);
    }
}

proof fn lemma_sorted_prefix_equal(keys: Seq<Seq<char>>, o1: Seq<usize>, o2: Seq<usize>, k: int)
    requires
        is_sorted_order(keys, o1),
        is_sorted_order(keys, o2),
        0 <= k <= o1.len(),
    ensures
        forall|m: int| 0 <= m < k ==> o1[m] == o2[m],
    decreases k,
{
    if k > 0 {
        let i = k - 1;
        lemma_sorted_prefix_equal(keys, o1, o2, i);
        let x = o1[i] as int;
        let y = o2[i] as int;
        if x != y {
            assert(lists(o2, x));
            let k2 = choose|m: int| 0 <= m < o2.len() && #[trigger] o2[m] == x;
            assert(lists(o1, y));
            let k1 = choose|m: int| 0 <= m < o1.len() && #[trigger] o1[m] == y;
            lemma_before_asymmetric(keys, x, x);
            lemma_before_asymmetric(keys, y, y);
            if k2 < i {
                assert(o1[k2] == o2[k2]);
                assert(key_before(keys, o1[k2] as int, o1[i] as int));
            }
            if k1 < i {
                assert(o1[k1] == o2[k1]);
                assert(key_before(keys, o2[k1] as int, o2[i] as int));
            }
            assert(key_before(keys, o2[i] as int, o2[k2] as int));
            assert(key_before(keys, o1[i] as int, o1[k1] as int));
            lemma_before_asymmetric(keys, x, y);
        }
    }
}

/// Listing entries by key is deterministic: two orders that both list
/// every index once by key are the same.
pub proof fn lemma_sorted_order_unique(keys: Seq<Seq<char>>, o1: Seq<usize>, o2: Seq<usize>)
    requires
        is_sorted_order(keys, o1),
        is_sorted_order(keys, o2),
    ensures
        o1 == o2,
{
    lemma_sorted_prefix_equal(keys, o1, o2, o1.len() as int);
    assert(o1 =~= o2);
}

/// The first position of `o` whose key `x`'s key sorts before, scanning
/// from `p`, or the end of `o`.
proof fn insert_position(keys: Seq<Seq<char>>, o: Seq<usize>, x: int, p: int) -> (q: int)
    requires
        0 <= p <= o.len(),
        forall|a: int| 0 <= a < p ==> !lex_lt(keys[x], keys[#[trigger] o[a] as int]),
    ensures
        p <= q <= o.len(),
        forall|a: int| 0 <= a < q ==> !lex_lt(keys[x], keys[#[trigger] o[a] as int]),
        q < o.len() ==> lex_lt(keys[x], keys[o[q] as int]),
    decreases o.len() - p,
{
    if p == o.len() || lex_lt(keys[x], keys[o[p] as int]) {
        p
    } else {
        insert_position(keys, o, x, p + 1)
    }
}

/// An order that lists the first `n` indices once each, by key.
proof fn sorted_prefix_order(keys: Seq<Seq<char>>, n: int) -> (o: Seq<usize>)
    requires
        0 <= n <= keys.len(),
        keys.len() <= usize::MAX,
    ensures
        o.len() == n,
        forall|k: int| 0 <= k < o.len() ==> #[trigger] o[k] < n,
        forall|a: int, b: int| 0 <= a < b < o.len() ==> key_before(keys, #[trigger] o[a] as int, #[trigger] o[b] as int),
        forall|j: int| 0 <= j < n ==> #[trigger] lists(o, j),
    decreases n,
{
    if n == 0 {
        Seq::empty()
    } else {
        let i = n - 1;
        let old_order = sorted_prefix_order(keys, i);
        let p = insert_position(keys, old_order, i, 0);
        assert forall|a: int| 0 <= a < p implies key_before(keys, #[trigger] old_order[a] as int, i) by {
            lemma_before_total(keys, old_order[a] as int, i);
        }
        if p < old_order.len() {
            assert forall|b: int| p <= b < old_order.len() implies key_before(keys, i, #[trigger] old_order[b] as int) by {
                if b > p {
                    assert(key_before(keys, old_order[p] as int, old_order[b] as int));
                    lemma_before_transitive(keys, i, old_order[p] as int, old_order[b] as int);
                }
            }
        }
        let o = old_order.insert(p, i as usize);
        old_order.insert_ensures(p, i as usize);
        assert forall|a: int, b: int| 0 <= a < b < o.len() implies key_before(keys, #[trigger] o[a] as int, #[trigger] o[b] as int) by {
            if a < p && b < p {
                assert(o[a] == old_order[a] && o[b] == old_order[b]);
            } else if a < p && b == p {
                assert(o[a] == old_order[a]);
            } else if a < p {
                assert(o[a] == old_order[a] && o[b] == old_order[b - 1]);
                lemma_before_transitive(keys, old_order[a] as int, i, old_order[b - 1] as int);
            } else if a == p {
                assert(o[b] == old_order[b - 1]);
            } else {
                assert(o[a] == old_order[a - 1] && o[b] == old_order[b - 1]);
            }
        }
        assert forall|j: int| 0 <= j < n implies #[trigger] lists(o, j) by {
            if j == i {
                assert(o[p] == j);
            } else {
                assert(lists(old_order, j));
                let k = choose|k: int| 0 <= k < old_order.len() && #[trigger] old_order[k] == j;
                if k < p {
                    assert(o[k] == j);
                } else {
                    assert(o[k + 1] == j);
                }
            }
        }
        assert forall|k: int| 0 <= k < o.len() implies #[trigger] o[k] < n by {
            if k < p {
                assert(o[k] == old_order[k]);
            } else if k > p {
                assert(o[k] == old_order[k - 1]);
            }
        }
        o
    }
}

/// Every list of keys has its listing by key.
pub proof fn lemma_sorted_order_exists(keys: Seq<Seq<char>>)
    requires
        keys.len() <= usize::MAX,
    ensures
        is_sorted_order(keys, sorted_order(keys)),
{
    let o = sorted_prefix_order(keys, keys.len() as int);
    assert(is_sorted_order(keys, o));
}

/// Keys that are already in order are listed as they stand.
pub proof fn lemma_sorted_keys_listed_in_place(keys: Seq<Seq<char>>)
    requires
        keys.len() <= usize::MAX,
        forall|i: int, j: int| 0 <= i < j < keys.len() ==> !lex_lt(#[trigger] keys[j], #[trigger] keys[i]),
    ensures
        sorted_order(keys) == Seq::new(keys.len(), |i: int| i as usize),
{
    let id = Seq::new(keys.len(), |i: int| i as usize);
    assert forall|a: int, b: int| 0 <= a < b < id.len() implies key_before(keys, #[trigger] id[a] as int, #[trigger] id[b] as int) by {
        lemma_lex_total(keys[a], keys[b]);
    }
    assert forall|j: int| 0 <= j < keys.len() implies #[trigger] lists(id, j) by {
        assert(id[j] == j);
    }
    assert(is_sorted_order(keys, id));
    lemma_sorted_order_exists(keys);
    lemma_sorted_order_unique(keys, sorted_order(keys), id);
}

/// The characters of each key.
pub open spec fn keys_view(keys: Seq<Vec<char>>) -> Seq<Seq<char>> {
    keys.map_values(|k: Vec<char>| k@)
}

/// Lists the indices of `keys` by key, equal keys in the order they come
/// (a stable sort).
pub fn sort_order(keys: &Vec<Vec<char>>) -> (order: Vec<usize>)
    ensures
        is_sorted_order(keys_view(keys@), order@),
        order@ == sorted_order(keys_view(keys@)),
{
    let ghost kv = keys_view(keys@);
    let mut order: Vec<usize> = Vec::new();
    let mut i: usize = 0;
    while i < keys.len()
        invariant
            i <= keys@.len(),
            kv == keys_view(keys@),
            order@.len() == i,
            forall|k: int| 0 <= k < order@.len() ==> #[trigger] order@[k] < i,
            forall|a: int, b: int| 0 <= a < b < order@.len() ==> key_before(kv, #[trigger] order@[a] as int, #[trigger] order@[b] as int),
            forall|j: int| 0 <= j < i ==> #[trigger] lists(order@, j),
        decreases keys@.len() - i,
    {
        let mut p: usize = 0;
        while p < order.len() && !chars_lt(&keys[i], &keys[order[p]])
            invariant
                i < keys@.len(),
                p <= order@.len(),
                kv == keys_view(keys@),
                forall|k: int| 0 <= k < order@.len() ==> #[trigger] order@[k] < i,
                forall|a: int| 0 <= a < p ==> !lex_lt(kv[i as int], kv[#[trigger] order@[a] as int]),
            decreases order@.len() - p,
        {
            p += 1;
        }
        let ghost old_order = order@;
        proof {
            assert forall|a: int| 0 <= a < p implies key_before(kv, #[trigger] old_order[a] as int, i as int) by {
                lemma_before_total(kv, old_order[a] as int, i as int);
            }
            if p < old_order.len() {
                assert(lex_lt(kv[i as int], kv[old_order[p as int] as int]));
                assert forall|b: int| p <= b < old_order.len() implies key_before(kv, i as int, #[trigger] old_order[b] as int) by {
                    if b > p {
                        assert(key_before(kv, old_order[p as int] as int, old_order[b] as int));
                        lemma_before_transitive(kv, i as int, old_order[p as int] as int, old_order[b] as int);
                    }
                }
            }
        }
        order.insert(p, i);
        proof {
            let n = order@;
            assert(n == old_order.insert(p as int, i));
            assert forall|a: int, b: int| 0 <= a < b < n.len() implies key_before(kv, #[trigger] n[a] as int, #[trigger] n[b] as int) by {
                if a < p && b < p {
                    assert(n[a] == old_order[a] && n[b] == old_order[b]);
                } else if a < p && b == p {
                } else if a < p {
                    assert(n[a] == old_order[a] && n[b] == old_order[b - 1]);
                    lemma_before_transitive(kv, old_order[a] as int, i as int, old_order[b - 1] as int);
                } else if a == p {
                    assert(n[b] == old_order[b - 1]);
                } else {
                    assert(n[a] == old_order[a - 1] && n[b] == old_order[b - 1]);
                }
            }
            assert forall|j: int| 0 <= j < i + 1 implies #[trigger] lists(n, j) by {
                if j == i {
                    assert(n[p as int] == j);
                } else {
                    assert(lists(old_order, j));
                    let k = choose|k: int| 0 <= k < old_order.len() && #[trigger] old_order[k] == j;
                    if k < p {
                        assert(n[k] == j);
                    } else {
                        assert(n[k + 1] == j);
                    }
                }
            }
            assert forall|k: int| 0 <= k < n.len() implies #[trigger] n[k] < i + 1 by {
                if k < p {
                    assert(n[k] == old_order[k]);
                } else if k > p {
                    assert(n[k] == old_order[k - 1]);
                }
            }
        }
        i += 1;
    }
    proof {
        assert(is_sorted_order(kv, order@));
        lemma_sorted_order_unique(kv, order@, sorted_order(kv));
    }
    order
}

/// The keys of a list of entries, as characters.
pub fn entry_keys<V>(entries: &Vec<(String, V)>) -> (keys: Vec<Vec<char>>)
    ensures
        keys_view(keys@) == entries@.map_values(|e: (String, V)| e.0@),
{
    let mut keys: Vec<Vec<char>> = Vec::new();
    let mut i: usize = 0;
    while i < entries.len()
        invariant
            i <= entries@.len(),
            keys_view(keys@) == entries@.subrange(0, i as int).map_values(|e: (String, V)| e.0@),
        decreases entries@.len() - i,
    {
        let k = chars_of(entries[i].0.as_str());
        let ghost before = keys@;
        keys.push(k);
        proof {
            assert(keys_view(keys@) =~= keys_view(before).push(entries@[i as int].0@));
            assert(entries@.subrange(0, i as int + 1) =~= entries@.subrange(0, i as int).push(entries@[i as int]));
            assert(entries@.subrange(0, i as int + 1).map_values(|e: (String, V)| e.0@) =~= entries@.subrange(0, i as int).map_values(|e: (String, V)| e.0@).push(entries@[i as int].0@));
        }
        i += 1;
    }
    assert(entries@.subrange(0, entries@.len() as int) =~= entries@);
    keys
}

} // verus!
