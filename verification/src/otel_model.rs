//! OTEL log records of a report, and their normal form for snapshots: the
//! attributes of every record and of every nested list, listed by key.

use vstd::prelude::*;
use crate::ordering::{sorted_order, sort_order, is_sorted_order, keys_view, key_before, lists, lex_lt, lemma_lex_irreflexive, lemma_lex_asymmetric, lemma_sorted_order_exists, lemma_sorted_keys_listed_in_place};
use crate::text::chars_of;

verus! {

/// A value of an OTEL log record.
#[derive(Debug)]
pub enum OtelValue {
    String(String),
    Int(i64),
    U64(u64),
    /// A double, by its IEEE-754 bits.
    Double(u64),
    Bool(bool),
    Bytes(Vec<u8>),
    Array(Vec<OtelValue>),
    KvList(Vec<OtelAttribute>),
}

/// A named value of an OTEL log record.
#[derive(Debug)]
pub struct OtelAttribute {
    pub key: String,
    pub value: OtelValue,
}

/// One OTEL log record.
#[derive(Debug)]
pub struct OtelEvent {
    pub timestamp_unix_nano: Option<u64>,
    pub observed_timestamp_unix_nano: Option<u64>,
    pub severity_number: Option<u8>,
    pub body: Option<OtelValue>,
    pub trace_id: Option<String>,
    pub span_id: Option<String>,
    pub trace_sampled: Option<bool>,
    pub attributes: Vec<OtelAttribute>,
}

/// The OTEL records of a report.
#[derive(Debug)]
pub struct OtelEnvelope {
    pub records: Vec<OtelEvent>,
}

/// The content of an OTEL value.
pub enum OtelView {
    String(Seq<char>),
    Int(i64),
    U64(u64),
    Double(u64),
    Bool(bool),
    Bytes(Seq<u8>),
    Array(Seq<OtelView>),
    KvList(Seq<(Seq<char>, OtelView)>),
}

/// The keys of attributes.
pub open spec fn attr_keys(attrs: Seq<OtelAttribute>) -> Seq<Seq<char>> {
    attrs.map_values(|a: OtelAttribute| a.key@)
}

/// The normal form of a value: the attributes of every nested list sorted
/// by key (equal keys keeping their order), everything else as it is.
pub closed spec fn normal_view(v: OtelValue) -> OtelView
    decreases v, 0nat,
{
    match v {
        OtelValue::String(s) => OtelView::String(s@),
        OtelValue::Int(x) => OtelView::Int(x),
        OtelValue::U64(x) => OtelView::U64(x),
        OtelValue::Double(x) => OtelView::Double(x),
        OtelValue::Bool(b) => OtelView::Bool(b),
        OtelValue::Bytes(b) => OtelView::Bytes(b@),
        OtelValue::Array(items) => OtelView::Array(normal_items(items@, items@.len())),
        OtelValue::KvList(attrs) => OtelView::KvList(normal_attrs(attrs@, sorted_order(attr_keys(attrs@)), attrs@.len())),
    }
}

/// The normal forms of the first `k` items.
pub closed spec fn normal_items(items: Seq<OtelValue>, k: nat) -> Seq<OtelView>
    decreases items, k,
{
    if k == 0 || k > items.len() {
        Seq::empty()
    } else {
        normal_items(items, (k - 1) as nat).push(normal_view(items[k - 1]))
    }
}

/// The first `k` attributes in the listing `order`, their values in normal form.
pub closed spec fn normal_attrs(attrs: Seq<OtelAttribute>, order: Seq<usize>, k: nat) -> Seq<(Seq<char>, OtelView)>
    decreases attrs, k,
{
    if k == 0 || k > order.len() || order[k - 1] >= attrs.len() {
        Seq::empty()
    } else {
        normal_attrs(attrs, order, (k - 1) as nat).push((attrs[order[k - 1] as int].key@, normal_view(attrs[order[k - 1] as int].value)))
    }
}

/// The content of a value as it is.
pub closed spec fn plain_view(v: OtelValue) -> OtelView
    decreases v, 0nat,
{
    match v {
        OtelValue::String(s) => OtelView::String(s@),
        OtelValue::Int(x) => OtelView::Int(x),
        OtelValue::U64(x) => OtelView::U64(x),
        OtelValue::Double(x) => OtelView::Double(x),
        OtelValue::Bool(b) => OtelView::Bool(b),
        OtelValue::Bytes(b) => OtelView::Bytes(b@),
        OtelValue::Array(items) => OtelView::Array(plain_items(items@, items@.len())),
        OtelValue::KvList(attrs) => OtelView::KvList(plain_attrs(attrs@, attrs@.len())),
    }
}

/// The contents of the first `k` items.
pub closed spec fn plain_items(items: Seq<OtelValue>, k: nat) -> Seq<OtelView>
    decreases items, k,
{
    if k == 0 || k > items.len() {
        Seq::empty()
    } else {
        plain_items(items, (k - 1) as nat).push(plain_view(items[k - 1]))
    }
}

/// The first `k` attributes as they are.
pub closed spec fn plain_attrs(attrs: Seq<OtelAttribute>, k: nat) -> Seq<(Seq<char>, OtelView)>
    decreases attrs, k,
{
    if k == 0 || k > attrs.len() {
        Seq::empty()
    } else {
        plain_attrs(attrs, (k - 1) as nat).push((attrs[k - 1].key@, plain_view(attrs[k - 1].value)))
    }
}

/// The attribute list of a record in normal form.
pub open spec fn normal_attr_list(attrs: Seq<OtelAttribute>) -> Seq<(Seq<char>, OtelView)> {
    normal_attrs(attrs, sorted_order(attr_keys(attrs)), attrs.len())
}

fn attr_key_chars(attrs: &Vec<OtelAttribute>) -> (keys: Vec<Vec<char>>)
    ensures
        keys_view(keys@) == attr_keys(attrs@),
{
    let mut keys: Vec<Vec<char>> = Vec::new();
    let mut i: usize = 0;
    while i < attrs.len()
        invariant
            i <= attrs@.len(),
            keys@.len() == i,
            forall|k: int| 0 <= k < i ==> #[trigger] keys@[k]@ == attrs@[k].key@,
        decreases attrs@.len() - i,
    {
        keys.push(chars_of(attrs[i].key.as_str()));
        i += 1;
    }
    assert(keys_view(keys@) =~= attr_keys(attrs@));
    keys
}

/// Brings a value to normal form.
pub fn normalize_otel_value(v: OtelValue) -> (r: OtelValue)
    ensures
        plain_view(r) == normal_view(v),
    decreases v, 2nat,
{
    let ghost parent = v;
    match v {
        OtelValue::Array(items) => {
            let ghost orig = items;
            let out = normalize_items(items, Ghost(parent));
            proof {
                reveal_with_fuel(plain_view, 1);
                reveal_with_fuel(normal_view, 1);
            }
            OtelValue::Array(out)
        },
        OtelValue::KvList(attrs) => {
            let out = normalize_attrs(attrs, Ghost(parent));
            OtelValue::KvList(out)
        },
        other => other,
    }
}

fn normalize_items(items: Vec<OtelValue>, Ghost(parent): Ghost<OtelValue>) -> (r: Vec<OtelValue>)
    requires
        parent == OtelValue::Array(items),
    ensures
        plain_items(r@, r@.len()) == normal_items(items@, items@.len()),
    decreases parent, 1nat,
{
    let ghost orig = items@;
    let mut rest = items;
    let mut rev: Vec<OtelValue> = Vec::new();
    while rest.len() > 0
        invariant
            orig.len() == rest@.len() + rev@.len(),
            forall|k: int| 0 <= k < rest@.len() ==> #[trigger] rest@[k] == orig[k],
            forall|k: int| 0 <= k < rev@.len() ==> #[trigger] rev@[k] == orig[orig.len() - 1 - k],
        decreases rest@.len(),
    {
        let x = rest.pop().unwrap();
        rev.push(x);
    }
    let mut out: Vec<OtelValue> = Vec::new();
    while rev.len() > 0
        invariant
            parent == OtelValue::Array(items),
            orig == items@,
            orig.len() == out@.len() + rev@.len(),
            forall|k: int| 0 <= k < rev@.len() ==> #[trigger] rev@[k] == orig[orig.len() - 1 - k],
            plain_items(out@, out@.len()) == normal_items(orig, out@.len() as nat),
        decreases rev@.len(),
    {
        let ghost i = out@.len();
        let x = rev.pop().unwrap();
        assert(x == orig[i as int]);
        proof {
            assert(decreases_to!(parent => (parent)->Array_0));
            assert(decreases_to!(items => items@));
            assert(decreases_to!(items@ => items@[i as int]));
        }
        let y = normalize_otel_value(x);
        let ghost before = out@;
        out.push(y);
        proof {
            assert(out@.drop_last() =~= before);
            assert(plain_items(out@, before.len()) == plain_items(before, before.len())) by {
                lemma_plain_items_prefix(out@, before, before.len());
            }
        }
    }
    out
}

proof fn lemma_plain_items_prefix(a: Seq<OtelValue>, b: Seq<OtelValue>, k: nat)
    requires
        k <= b.len(),
        k <= a.len(),
        forall|i: int| 0 <= i < k ==> a[i] == b[i],
    ensures
        plain_items(a, k) == plain_items(b, k),
    decreases k,
{
    if k > 0 {
        lemma_plain_items_prefix(a, b, (k - 1) as nat);
    }
}

proof fn lemma_plain_attrs_prefix(a: Seq<OtelAttribute>, b: Seq<OtelAttribute>, k: nat)
    requires
        k <= b.len(),
        k <= a.len(),
        forall|i: int| 0 <= i < k ==> a[i] == b[i],
    ensures
        plain_attrs(a, k) == plain_attrs(b, k),
    decreases k,
{
    if k > 0 {
        lemma_plain_attrs_prefix(a, b, (k - 1) as nat);
    }
}

fn normalize_attrs(attrs: Vec<OtelAttribute>, Ghost(parent): Ghost<OtelValue>) -> (r: Vec<OtelAttribute>)
    requires
        parent == OtelValue::KvList(attrs),
    ensures
        plain_attrs(r@, r@.len()) == normal_attr_list(attrs@),
    decreases parent, 1nat,
{
    let ghost orig = attrs@;
    let keys = attr_key_chars(&attrs);
    let order = sort_order(&keys);
    let n = attrs.len();
    let mut rest = attrs;
    let mut slots: Vec<Option<OtelAttribute>> = Vec::new();
    while rest.len() > 0
        invariant
            orig.len() == n,
            n == rest@.len() + slots@.len(),
            forall|k: int| 0 <= k < rest@.len() ==> #[trigger] rest@[k] == orig[k],
            forall|k: int| 0 <= k < slots@.len() ==> #[trigger] slots@[k] == Some(orig[n - 1 - k]),
        decreases rest@.len(),
    {
        let x = rest.pop().unwrap();
        slots.push(Some(x));
    }
    let mut out: Vec<OtelAttribute> = Vec::new();
    let mut i: usize = 0;
    while i < order.len()
        invariant
            parent == OtelValue::KvList(attrs),
            orig == attrs@,
            orig.len() == n,
            slots@.len() == n,
            is_sorted_order(attr_keys(orig), order@),
            order@ == sorted_order(attr_keys(orig)),
            i <= order@.len(),
            out@.len() == i,
            forall|k: int| 0 <= k < n && (forall|m: int| 0 <= m < i ==> order@[m] != k) ==> #[trigger] slots@[n - 1 - k] == Some(orig[k]),
            plain_attrs(out@, out@.len()) == normal_attrs(orig, order@, i as nat),
        decreases order@.len() - i,
    {
        let j = order[i];
        assert(j < n);
        proof {
            assert forall|m: int| 0 <= m < i implies order@[m] != j by {
                lemma_lex_irreflexive(attr_keys(orig)[j as int]);
                if order@[m] == j {
                    assert(key_before(attr_keys(orig), order@[m] as int, order@[i as int] as int));
                }
            }
        }
        let a = slots[n - 1 - j].take().unwrap();
        assert(a == orig[j as int]);
        let OtelAttribute { key, value } = a;
        proof {
            assert(decreases_to!(parent => (parent)->KvList_0));
            assert(decreases_to!(attrs => attrs@));
            assert(decreases_to!(attrs@ => attrs@[j as int]));
            assert(decreases_to!(attrs@[j as int] => attrs@[j as int].value));
        }
        let y = normalize_otel_value(value);
        let ghost before = out@;
        out.push(OtelAttribute { key, value: y });
        proof {
            lemma_plain_attrs_prefix(out@, before, before.len());
            assert forall|k: int| 0 <= k < n && (forall|m: int| 0 <= m < i + 1 ==> order@[m] != k) implies #[trigger] slots@[n - 1 - k] == Some(orig[k]) by {
                assert(order@[i as int] != k);
            }
        }
        i += 1;
    }
    proof {
        reveal_with_fuel(normal_view, 1);
    }
    out
}

/// Lists a record's attributes by key, nested lists included.
pub fn normalize_otel_attributes(attributes: &mut Vec<OtelAttribute>)
    ensures
        plain_attrs(final(attributes)@, final(attributes)@.len()) == normal_attr_list(old(attributes)@),
{
    let mut taken: Vec<OtelAttribute> = Vec::new();
    std::mem::swap(attributes, &mut taken);
    let ghost parent = OtelValue::KvList(taken);
    let normal = normalize_attrs(taken, Ghost(parent));
    *attributes = normal;
}

/// Lists an event's attributes by key; the rest of the event is kept.
pub fn normalize_otel_event(event: &mut OtelEvent)
    ensures
        plain_attrs(final(event).attributes@, final(event).attributes@.len()) == normal_attr_list(old(event).attributes@),
        final(event).timestamp_unix_nano == old(event).timestamp_unix_nano,
        final(event).observed_timestamp_unix_nano == old(event).observed_timestamp_unix_nano,
        final(event).severity_number == old(event).severity_number,
        final(event).body == old(event).body,
        final(event).trace_id == old(event).trace_id,
        final(event).span_id == old(event).span_id,
        final(event).trace_sampled == old(event).trace_sampled,
{
    normalize_otel_attributes(&mut event.attributes);
}

/// Lists the attributes of every record of an envelope by key; records keep
/// their order and their other fields.
pub fn normalize_otel_envelope(envelope: &mut OtelEnvelope)
    ensures
        final(envelope).records@.len() == old(envelope).records@.len(),
        forall|i: int| 0 <= i < final(envelope).records@.len() ==> {
            let a = #[trigger] final(envelope).records@[i];
            let b = old(envelope).records@[i];
            &&& plain_attrs(a.attributes@, a.attributes@.len()) == normal_attr_list(b.attributes@)
            &&& a.timestamp_unix_nano == b.timestamp_unix_nano
            &&& a.observed_timestamp_unix_nano == b.observed_timestamp_unix_nano
            &&& a.severity_number == b.severity_number
            &&& a.body == b.body
            &&& a.trace_id == b.trace_id
            &&& a.span_id == b.span_id
            &&& a.trace_sampled == b.trace_sampled
        },
{
    let ghost before = envelope.records@;
    let mut i: usize = 0;
    while i < envelope.records.len()
        invariant
            envelope.records@.len() == before.len(),
            i <= before.len(),
            forall|k: int| i <= k < before.len() ==> #[trigger] envelope.records@[k] == before[k],
            forall|k: int| 0 <= k < i ==> {
                let a = #[trigger] envelope.records@[k];
                let b = before[k];
                &&& plain_attrs(a.attributes@, a.attributes@.len()) == normal_attr_list(b.attributes@)
                &&& a.timestamp_unix_nano == b.timestamp_unix_nano
                &&& a.observed_timestamp_unix_nano == b.observed_timestamp_unix_nano
                &&& a.severity_number == b.severity_number
                &&& a.body == b.body
                &&& a.trace_id == b.trace_id
                &&& a.span_id == b.span_id
                &&& a.trace_sampled == b.trace_sampled
            },
        decreases before.len() - i,
    {
        normalize_otel_event(&mut envelope.records[i]);
        i += 1;
    }
}

proof fn lemma_normal_attrs_index(attrs: Seq<OtelAttribute>, order: Seq<usize>, k: nat)
    requires
        k <= order.len(),
        forall|q: int| 0 <= q < order.len() ==> #[trigger] order[q] < attrs.len(),
    ensures
        normal_attrs(attrs, order, k).len() == k,
        forall|i: int| 0 <= i < k ==> #[trigger] normal_attrs(attrs, order, k)[i]
            == (attrs[order[i] as int].key@, normal_view(attrs[order[i] as int].value)),
    decreases k,
{
    reveal_with_fuel(normal_attrs, 1);
    if k > 0 {
        lemma_normal_attrs_index(attrs, order, (k - 1) as nat);
        assert(order[k - 1] < attrs.len());
    }
}

/// Normalizing an attribute list keeps every attribute once, its value in
/// normal form, and lists them by key: no key sorts before the key of an
/// attribute in front of it. The sort is stable: the list takes the
/// attributes in the order `sorted_order` gives, which lists each position
/// once, by key, attributes with equal keys in the order they came.
pub proof fn law_normal_attributes_listed_by_key(attrs: Seq<OtelAttribute>)
    requires
        attrs.len() <= usize::MAX,
    ensures
        is_sorted_order(attr_keys(attrs), sorted_order(attr_keys(attrs))),
        forall|i: int| 0 <= i < attrs.len() ==> #[trigger] normal_attr_list(attrs)[i] == (
            attrs[sorted_order(attr_keys(attrs))[i] as int].key@,
            normal_view(attrs[sorted_order(attr_keys(attrs))[i] as int].value),
        ),
        normal_attr_list(attrs).len() == attrs.len(),
        forall|i: int, j: int| 0 <= i < j < attrs.len()
            ==> !lex_lt(#[trigger] normal_attr_list(attrs)[j].0, #[trigger] normal_attr_list(attrs)[i].0),
        forall|k: int| 0 <= k < attrs.len()
            ==> #[trigger] normal_attr_list(attrs).contains((attrs[k].key@, normal_view(attrs[k].value))),
{
    let keys = attr_keys(attrs);
    let order = sorted_order(keys);
    lemma_sorted_order_exists(keys);
    lemma_normal_attrs_index(attrs, order, attrs.len());
    let out = normal_attr_list(attrs);
    assert forall|i: int, j: int| 0 <= i < j < attrs.len() implies !lex_lt(#[trigger] out[j].0, #[trigger] out[i].0) by {
        assert(key_before(keys, order[i] as int, order[j] as int));
        lemma_lex_asymmetric(keys[order[i] as int], keys[order[j] as int]);
        lemma_lex_irreflexive(keys[order[i] as int]);
    }
    assert forall|k: int| 0 <= k < attrs.len() implies #[trigger] out.contains((attrs[k].key@, normal_view(attrs[k].value))) by {
        assert(lists(order, k));
        let q = choose|q: int| 0 <= q < order.len() && #[trigger] order[q] == k;
        assert(out[q] == (attrs[k].key@, normal_view(attrs[k].value)));
    }
}

/// Every nested list of a value has at most `usize::MAX` entries, as every
/// list held in memory does.
pub open spec fn lists_fit(v: OtelValue) -> bool
    decreases v, 0nat,
{
    match v {
        OtelValue::Array(items) => items@.len() <= usize::MAX && items_fit(items@, items@.len()),
        OtelValue::KvList(attrs) => attrs@.len() <= usize::MAX && attrs_fit(attrs@, attrs@.len()),
        _ => true,
    }
}

/// The nested lists of the first `k` items fit.
pub open spec fn items_fit(items: Seq<OtelValue>, k: nat) -> bool
    decreases items, k,
{
    if k == 0 || k > items.len() {
        true
    } else {
        items_fit(items, (k - 1) as nat) && lists_fit(items[k - 1])
    }
}

/// The nested lists of the values of the first `k` attributes fit.
pub open spec fn attrs_fit(attrs: Seq<OtelAttribute>, k: nat) -> bool
    decreases attrs, k,
{
    if k == 0 || k > attrs.len() {
        true
    } else {
        attrs_fit(attrs, (k - 1) as nat) && lists_fit(attrs[k - 1].value)
    }
}

proof fn lemma_items_fit_index(items: Seq<OtelValue>, k: nat)
    requires
        k <= items.len(),
        items_fit(items, k),
    ensures
        forall|i: int| 0 <= i < k ==> lists_fit(#[trigger] items[i]),
    decreases k,
{
    if k > 0 {
        lemma_items_fit_index(items, (k - 1) as nat);
    }
}

proof fn lemma_attrs_fit_index(attrs: Seq<OtelAttribute>, k: nat)
    requires
        k <= attrs.len(),
        attrs_fit(attrs, k),
    ensures
        forall|i: int| 0 <= i < k ==> lists_fit(#[trigger] attrs[i].value),
    decreases k,
{
    if k > 0 {
        lemma_attrs_fit_index(attrs, (k - 1) as nat);
    }
}

proof fn lemma_plain_attrs_index(attrs: Seq<OtelAttribute>, k: nat)
    requires
        k <= attrs.len(),
    ensures
        plain_attrs(attrs, k).len() == k,
        forall|i: int| 0 <= i < k ==> #[trigger] plain_attrs(attrs, k)[i] == (attrs[i].key@, plain_view(attrs[i].value)),
    decreases k,
{
    if k > 0 {
        lemma_plain_attrs_index(attrs, (k - 1) as nat);
    }
}

proof fn lemma_plain_items_index(items: Seq<OtelValue>, k: nat)
    requires
        k <= items.len(),
    ensures
        plain_items(items, k).len() == k,
        forall|i: int| 0 <= i < k ==> #[trigger] plain_items(items, k)[i] == plain_view(items[i]),
    decreases k,
{
    if k > 0 {
        lemma_plain_items_index(items, (k - 1) as nat);
    }
}

proof fn lemma_normal_items_index(items: Seq<OtelValue>, k: nat)
    requires
        k <= items.len(),
    ensures
        normal_items(items, k).len() == k,
        forall|i: int| 0 <= i < k ==> #[trigger] normal_items(items, k)[i] == normal_view(items[i]),
    decreases k,
{
    if k > 0 {
        lemma_normal_items_index(items, (k - 1) as nat);
    }
}

/// A value whose contents are a normal form is its own normal form.
proof fn lemma_value_normal_again(w: OtelValue, v: OtelValue)
    requires
        lists_fit(v),
        plain_view(w) == normal_view(v),
    ensures
        normal_view(w) == plain_view(w),
    decreases w, 1nat,
{
    match w {
        OtelValue::Array(items) => {
            match v {
                OtelValue::Array(vitems) => {
                    let n = items@.len();
                    let m = vitems@.len();
                    lemma_plain_items_index(items@, n);
                    lemma_normal_items_index(vitems@, m);
                    lemma_items_fit_index(vitems@, m);
                    lemma_normal_items_index(items@, n);
                    assert(n == m);
                    assert forall|i: int| 0 <= i < n implies normal_view(#[trigger] items@[i]) == plain_view(items@[i]) by {
                        assert(plain_items(items@, n)[i] == normal_items(vitems@, m)[i]);
                        assert(decreases_to!(w => (w)->Array_0));
                        assert(decreases_to!(items => items@));
                        assert(decreases_to!(items@ => items@[i]));
                        lemma_value_normal_again(items@[i], vitems@[i]);
                    }
                    assert(normal_items(items@, n) =~= plain_items(items@, n));
                },
                _ => {},
            }
        },
        OtelValue::KvList(attrs) => {
            match v {
                OtelValue::KvList(vattrs) => {
                    assert(decreases_to!(w => (w)->KvList_0));
                    assert(decreases_to!(attrs => attrs@));
                    lemma_list_normal_again(attrs@, vattrs@);
                },
                _ => {},
            }
        },
        _ => {},
    }
}

/// An attribute list whose contents are a normal form is its own normal form.
proof fn lemma_list_normal_again(again: Seq<OtelAttribute>, attrs: Seq<OtelAttribute>)
    requires
        attrs.len() <= usize::MAX,
        attrs_fit(attrs, attrs.len()),
        plain_attrs(again, again.len()) == normal_attr_list(attrs),
    ensures
        normal_attr_list(again) == plain_attrs(again, again.len()),
    decreases again, 0nat,
{
    let keys = attr_keys(attrs);
    let order = sorted_order(keys);
    lemma_sorted_order_exists(keys);
    lemma_normal_attrs_index(attrs, order, attrs.len());
    law_normal_attributes_listed_by_key(attrs);
    lemma_plain_attrs_index(again, again.len());
    lemma_attrs_fit_index(attrs, attrs.len());
    let n = again.len();
    assert(n == attrs.len());
    let k2 = attr_keys(again);
    assert forall|i: int, j: int| 0 <= i < j < n implies !lex_lt(#[trigger] k2[j], #[trigger] k2[i]) by {
        assert(k2[i] == plain_attrs(again, n)[i].0);
        assert(k2[j] == plain_attrs(again, n)[j].0);
        assert(!lex_lt(normal_attr_list(attrs)[j].0, normal_attr_list(attrs)[i].0));
    }
    lemma_sorted_keys_listed_in_place(k2);
    let id = Seq::new(n, |i: int| i as usize);
    lemma_normal_attrs_index(again, id, n);
    assert forall|i: int| 0 <= i < n implies #[trigger] normal_attr_list(again)[i] == plain_attrs(again, n)[i] by {
        assert(id[i] == i);
        assert(order[i] < attrs.len());
        assert(lists_fit(attrs[order[i] as int].value));
        assert(plain_attrs(again, n)[i] == normal_attr_list(attrs)[i]);
        assert(decreases_to!(again => again[i]));
        lemma_value_normal_again(again[i].value, attrs[order[i] as int].value);
    }
    assert(normal_attr_list(again) =~= plain_attrs(again, n));
}

/// Normalizing twice changes nothing: an attribute list whose contents are
/// the normal form of a list (as `normalize_otel_attributes` leaves it) is
/// its own normal form, so a second pass gives the same contents.
pub proof fn law_normalizing_twice_changes_nothing(attrs: Seq<OtelAttribute>, again: Seq<OtelAttribute>)
    requires
        attrs.len() <= usize::MAX,
        attrs_fit(attrs, attrs.len()),
        plain_attrs(again, again.len()) == normal_attr_list(attrs),
    ensures
        normal_attr_list(again) == plain_attrs(again, again.len()),
{
    lemma_list_normal_again(again, attrs);
}

} // verus!
