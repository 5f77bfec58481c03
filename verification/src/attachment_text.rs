//! The JSON text of attachment values, which nest, and the facts about it
//! that the writers use one level at a time.

use vstd::prelude::*;
use crate::json::{json_string, decimal, decimal_int, bool_text, field_prefix, item_prefix, closing};
use crate::values::{AttachmentValue, kind_value, array_json, byte_items, redacted_json};
use crate::ordering::{sorted_order, is_sorted_order, lists, lemma_sorted_order_exists};

verus! {

/// The keys of an object's entries.
pub open spec fn object_keys(entries: Seq<(String, AttachmentValue)>) -> Seq<Seq<char>> {
    entries.map_values(|e: (String, AttachmentValue)| e.0@)
}

/// How deeply an attachment value nests.
pub open spec fn nesting(v: AttachmentValue) -> nat
    decreases v, 0nat,
{
    match v {
        AttachmentValue::Array(vals) => 1 + seq_nesting(vals@, vals@.len()),
        AttachmentValue::Object(entries) => 1 + entries_nesting(entries@, entries@.len()),
        _ => 0,
    }
}

/// The deepest nesting among the first `k` values.
pub open spec fn seq_nesting(vals: Seq<AttachmentValue>, k: nat) -> nat
    decreases vals, k,
{
    if k == 0 || k > vals.len() {
        0
    } else {
        let a = seq_nesting(vals, (k - 1) as nat);
        let b = nesting(vals[k - 1]);
        if a >= b { a } else { b }
    }
}

/// The deepest nesting among the values of the first `k` entries.
pub open spec fn entries_nesting(entries: Seq<(String, AttachmentValue)>, k: nat) -> nat
    decreases entries, k,
{
    if k == 0 || k > entries.len() {
        0
    } else {
        let a = entries_nesting(entries, (k - 1) as nat);
        let b = nesting(entries[k - 1].1);
        if a >= b { a } else { b }
    }
}

/// JSON of an attachment value that holds no other value (`None` for arrays
/// and objects, and for a non-finite float).
pub open spec fn leaf_json(v: AttachmentValue, pretty: bool, depth: nat) -> Option<Seq<char>> {
    match v {
        AttachmentValue::String(s) => Some(kind_value(pretty, depth, "string"@, json_string(s@))),
        AttachmentValue::Integer(x) => Some(kind_value(pretty, depth, "integer"@, decimal_int(x as int))),
        AttachmentValue::Unsigned(x) => Some(kind_value(pretty, depth, "unsigned"@, decimal(x as nat))),
        AttachmentValue::Float(f) => if f.finite {
            Some(kind_value(pretty, depth, "float"@, f.text@))
        } else {
            None
        },
        AttachmentValue::Bool(b) => Some(kind_value(pretty, depth, "bool"@, bool_text(b))),
        AttachmentValue::Bytes(bytes) => Some(kind_value(pretty, depth, "bytes"@, array_json(byte_items(bytes@), pretty, depth + 1))),
        AttachmentValue::Redacted { kind, reason } => Some(redacted_json(pretty, depth, kind, reason)),
        _ => None,
    }
}

/// JSON of an attachment value at depth `depth`, or `None` when it holds a
/// non-finite float.
pub closed spec fn attachment_json(v: AttachmentValue, pretty: bool, depth: nat) -> Option<Seq<char>>
    decreases v, 0nat,
{
    match v {
        AttachmentValue::Array(vals) => match items_json(vals@, vals@.len(), pretty, depth + 1) {
            Some(body) => Some(kind_value(pretty, depth, "array"@, seq!['['] + body + closing(pretty, depth + 1, vals@.len() == 0, ']'))),
            None => None,
        },
        AttachmentValue::Object(entries) => match entries_json(entries@, sorted_order(object_keys(entries@)), entries@.len(), pretty, depth + 1) {
            Some(body) => Some(kind_value(pretty, depth, "object"@, seq!['{'] + body + closing(pretty, depth + 1, entries@.len() == 0, '}'))),
            None => None,
        },
        _ => leaf_json(v, pretty, depth),
    }
}

/// A value that holds no other value has its leaf text.
pub proof fn lemma_leaf_json(v: AttachmentValue, pretty: bool, depth: nat)
    requires
        !(v is Array || v is Object),
    ensures
        attachment_json(v, pretty, depth) == leaf_json(v, pretty, depth),
{
    reveal_with_fuel(attachment_json, 1);
}

/// The first `k` items of an array whose items are prefixed at depth `depth`.
pub closed spec fn items_json(vals: Seq<AttachmentValue>, k: nat, pretty: bool, depth: nat) -> Option<Seq<char>>
    decreases vals, k,
{
    if k == 0 || k > vals.len() {
        if k == 0 { Some(Seq::empty()) } else { None }
    } else {
        match (items_json(vals, (k - 1) as nat, pretty, depth), attachment_json(vals[k - 1], pretty, depth + 1)) {
            (Some(a), Some(b)) => Some(a + item_prefix(k == 1, pretty, depth) + b),
            _ => None,
        }
    }
}

/// The first `k` fields of an object, in the listing `order`, whose fields
/// are prefixed at depth `depth`.
pub closed spec fn entries_json(entries: Seq<(String, AttachmentValue)>, order: Seq<usize>, k: nat, pretty: bool, depth: nat) -> Option<Seq<char>>
    decreases entries, k,
{
    if k == 0 || k > order.len() || order[k - 1] >= entries.len() {
        if k == 0 { Some(Seq::empty()) } else { None }
    } else {
        let j = order[k - 1] as int;
        match (entries_json(entries, order, (k - 1) as nat, pretty, depth), attachment_json(entries[j].1, pretty, depth + 1)) {
            (Some(a), Some(b)) => Some(a + field_prefix(k == 1, pretty, depth, entries[j].0@) + b),
            _ => None,
        }
    }
}


/// One more item extends the items' text by its prefix and its JSON.
pub proof fn lemma_items_step(vals: Seq<AttachmentValue>, i: nat, pretty: bool, depth: nat)
    requires
        i < vals.len(),
    ensures
        items_json(vals, i + 1, pretty, depth) == (match (items_json(vals, i, pretty, depth), attachment_json(vals[i as int], pretty, depth + 1)) {
            (Some(a), Some(b)) => Some(a + item_prefix(i == 0, pretty, depth) + b),
            _ => None::<Seq<char>>,
        }),
{
    reveal_with_fuel(items_json, 2);
}

/// One more field extends the fields' text by its prefix and its JSON.
pub proof fn lemma_entries_step(entries: Seq<(String, AttachmentValue)>, order: Seq<usize>, i: nat, pretty: bool, depth: nat)
    requires
        i < order.len(),
        order[i as int] < entries.len(),
    ensures
        entries_json(entries, order, i + 1, pretty, depth) == (match (entries_json(entries, order, i, pretty, depth), attachment_json(entries[order[i as int] as int].1, pretty, depth + 1)) {
            (Some(a), Some(b)) => Some(a + field_prefix(i == 0, pretty, depth, entries[order[i as int] as int].0@) + b),
            _ => None::<Seq<char>>,
        }),
{
    reveal_with_fuel(entries_json, 2);
}

/// No items have empty text.
pub proof fn lemma_items_zero(vals: Seq<AttachmentValue>, pretty: bool, depth: nat)
    ensures
        items_json(vals, 0, pretty, depth) == Some(Seq::<char>::empty()),
{
    reveal_with_fuel(items_json, 2);
}

/// No fields have empty text.
pub proof fn lemma_entries_zero(entries: Seq<(String, AttachmentValue)>, order: Seq<usize>, pretty: bool, depth: nat)
    ensures
        entries_json(entries, order, 0, pretty, depth) == Some(Seq::<char>::empty()),
{
    reveal_with_fuel(entries_json, 2);
}

/// The JSON of an array: its kind and its bracketed items.
pub proof fn lemma_array_json(vals: Vec<AttachmentValue>, pretty: bool, depth: nat)
    ensures
        attachment_json(AttachmentValue::Array(vals), pretty, depth) == (match items_json(vals@, vals@.len(), pretty, depth + 1) {
            Some(body) => Some(kind_value(pretty, depth, "array"@, seq!['['] + body + closing(pretty, depth + 1, vals@.len() == 0, ']'))),
            None => None::<Seq<char>>,
        }),
{
    reveal_with_fuel(attachment_json, 2);
}

/// The JSON of an object: its kind and its braced fields, listed by key.
pub proof fn lemma_object_json(entries: Vec<(String, AttachmentValue)>, pretty: bool, depth: nat)
    ensures
        attachment_json(AttachmentValue::Object(entries), pretty, depth) == (match entries_json(entries@, sorted_order(object_keys(entries@)), entries@.len(), pretty, depth + 1) {
            Some(body) => Some(kind_value(pretty, depth, "object"@, seq!['{'] + body + closing(pretty, depth + 1, entries@.len() == 0, '}'))),
            None => None::<Seq<char>>,
        }),
{
    reveal_with_fuel(attachment_json, 2);
}

/// No item nests deeper than the items do together.
pub proof fn lemma_seq_nesting(vals: Seq<AttachmentValue>, k: nat, i: int)
    requires
        0 <= i < k <= vals.len(),
    ensures
        nesting(vals[i]) <= seq_nesting(vals, k),
    decreases k,
{
    if i < k - 1 {
        lemma_seq_nesting(vals, (k - 1) as nat, i);
    }
}

/// No entry's value nests deeper than the entries do together.
pub proof fn lemma_entries_nesting(entries: Seq<(String, AttachmentValue)>, k: nat, i: int)
    requires
        0 <= i < k <= entries.len(),
    ensures
        nesting(entries[i].1) <= entries_nesting(entries, k),
    decreases k,
{
    if i < k - 1 {
        lemma_entries_nesting(entries, (k - 1) as nat, i);
    }
}

/// Once an item has no JSON, neither do longer runs of items.
pub proof fn lemma_items_none(vals: Seq<AttachmentValue>, k: nat, m: nat, pretty: bool, depth: nat)
    requires
        items_json(vals, k, pretty, depth) is None,
        k <= m <= vals.len(),
    ensures
        items_json(vals, m, pretty, depth) is None,
    decreases m - k,
{
    reveal(items_json);
    if k < m {
        lemma_items_none(vals, k, (m - 1) as nat, pretty, depth);
    }
}

/// Once a field has no JSON, neither do longer runs of fields.
pub proof fn lemma_entries_none(entries: Seq<(String, AttachmentValue)>, order: Seq<usize>, k: nat, m: nat, pretty: bool, depth: nat)
    requires
        entries_json(entries, order, k, pretty, depth) is None,
        k <= m <= order.len(),
    ensures
        entries_json(entries, order, m, pretty, depth) is None,
    decreases m - k,
{
    reveal(entries_json);
    if k < m {
        lemma_entries_none(entries, order, k, (m - 1) as nat, pretty, depth);
    }
}


/// Every float that a value holds, at any depth, is finite.
pub open spec fn floats_finite(v: AttachmentValue) -> bool
    decreases v, 0nat,
{
    match v {
        AttachmentValue::Float(f) => f.finite,
        AttachmentValue::Array(vals) => items_finite(vals@, vals@.len()),
        AttachmentValue::Object(entries) => entries_finite(entries@, entries@.len()),
        _ => true,
    }
}

/// Every float held by the first `k` values is finite.
pub open spec fn items_finite(vals: Seq<AttachmentValue>, k: nat) -> bool
    decreases vals, k,
{
    if k == 0 || k > vals.len() {
        true
    } else {
        items_finite(vals, (k - 1) as nat) && floats_finite(vals[k - 1])
    }
}

/// Every float held by the values of the first `k` entries is finite.
pub open spec fn entries_finite(entries: Seq<(String, AttachmentValue)>, k: nat) -> bool
    decreases entries, k,
{
    if k == 0 || k > entries.len() {
        true
    } else {
        entries_finite(entries, (k - 1) as nat) && floats_finite(entries[k - 1].1)
    }
}

proof fn lemma_entries_finite_all(entries: Seq<(String, AttachmentValue)>, k: nat)
    requires
        k <= entries.len(),
    ensures
        entries_finite(entries, k) <==> forall|j: int| 0 <= j < k ==> floats_finite(#[trigger] entries[j].1),
    decreases k,
{
    if k > 0 {
        lemma_entries_finite_all(entries, (k - 1) as nat);
    }
}

/// The JSON of a value exists exactly when its floats are finite.
proof fn lemma_json_iff_finite(v: AttachmentValue, pretty: bool, depth: nat)
    ensures
        attachment_json(v, pretty, depth) is Some <==> floats_finite(v),
    decreases v, 0nat,
{
    reveal_with_fuel(attachment_json, 1);
    match v {
        AttachmentValue::Array(vals) => {
            lemma_items_iff_finite(vals@, vals@.len(), pretty, depth + 1);
        },
        AttachmentValue::Object(entries) => {
            let keys = object_keys(entries@);
            let order = sorted_order(keys);
            assert(entries@.len() == entries.len());
            lemma_sorted_order_exists(keys);
            assert(is_sorted_order(keys, order));
            lemma_entries_iff_finite(entries@, order, entries@.len(), pretty, depth + 1);
            lemma_entries_finite_all(entries@, entries@.len());
            assert((forall|q: int| 0 <= q < entries@.len() ==> floats_finite(#[trigger] entries@[order[q] as int].1))
                <==> (forall|j: int| 0 <= j < entries@.len() ==> floats_finite(#[trigger] entries@[j].1))) by {
                if forall|q: int| 0 <= q < entries@.len() ==> floats_finite(#[trigger] entries@[order[q] as int].1) {
                    assert forall|j: int| 0 <= j < entries@.len() implies floats_finite(#[trigger] entries@[j].1) by {
                        assert(lists(order, j));
                        let q = choose|q: int| 0 <= q < order.len() && #[trigger] order[q] == j;
                        assert(floats_finite(entries@[order[q] as int].1));
                    }
                }
                if forall|j: int| 0 <= j < entries@.len() ==> floats_finite(#[trigger] entries@[j].1) {
                    assert forall|q: int| 0 <= q < entries@.len() implies floats_finite(#[trigger] entries@[order[q] as int].1) by {
                        assert(order[q] < keys.len());
                    }
                }
            }
        },
        _ => {},
    }
}

proof fn lemma_items_iff_finite(vals: Seq<AttachmentValue>, k: nat, pretty: bool, depth: nat)
    requires
        k <= vals.len(),
    ensures
        items_json(vals, k, pretty, depth) is Some <==> items_finite(vals, k),
    decreases vals, k,
{
    reveal_with_fuel(items_json, 1);
    if k > 0 {
        lemma_items_iff_finite(vals, (k - 1) as nat, pretty, depth);
        lemma_json_iff_finite(vals[k - 1], pretty, depth + 1);
    }
}

proof fn lemma_entries_iff_finite(entries: Seq<(String, AttachmentValue)>, order: Seq<usize>, k: nat, pretty: bool, depth: nat)
    requires
        k <= order.len(),
        forall|q: int| 0 <= q < order.len() ==> #[trigger] order[q] < entries.len(),
    ensures
        entries_json(entries, order, k, pretty, depth) is Some
            <==> forall|q: int| 0 <= q < k ==> floats_finite(#[trigger] entries[order[q] as int].1),
    decreases entries, k,
{
    reveal_with_fuel(entries_json, 1);
    if k > 0 {
        lemma_entries_iff_finite(entries, order, (k - 1) as nat, pretty, depth);
        lemma_json_iff_finite(entries[order[k - 1] as int].1, pretty, depth + 1);
    }
}

/// Writing an attachment value as JSON fails exactly when it holds, at any
/// depth, a float that is not finite (infinities and NaN have no JSON form).
pub proof fn law_json_fails_only_on_non_finite(v: AttachmentValue, pretty: bool, depth: nat)
    ensures
        attachment_json(v, pretty, depth) is Some <==> floats_finite(v),
{
    lemma_json_iff_finite(v, pretty, depth);
}

} // verus!
