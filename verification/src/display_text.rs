//! The human-readable text of context and attachment values: scalars as
//! written by `Display`, lists in brackets, objects in braces with their
//! fields listed by key.

use vstd::prelude::*;
use crate::json::{decimal, decimal_int, bool_text, push_char, push_str, write_i64, write_u64, write_bool};
use crate::ordering::{sorted_order, sort_order, entry_keys, is_sorted_order};
use crate::values::{ContextValue, AttachmentValue, FloatRepr};
use crate::attachment_text::object_keys;

verus! {

/// Texts joined with `", "`.
pub open spec fn join(items: Seq<Seq<char>>) -> Seq<char>
    decreases items.len(),
{
    if items.len() == 0 {
        Seq::empty()
    } else if items.len() == 1 {
        items[0]
    } else {
        join(items.drop_last()) + ", "@ + items.last()
    }
}

/// Texts joined with `", "` inside square brackets.
pub open spec fn list_text(items: Seq<Seq<char>>) -> Seq<char> {
    seq!['['] + join(items) + seq![']']
}

/// Text of a redacted value: `<redacted>`, with its kind and reason when given.
pub open spec fn redacted_text(kind: Option<String>, reason: Option<String>) -> Seq<char> {
    match (kind, reason) {
        (Some(k), Some(r)) => "<redacted:"@ + k@ + ":"@ + r@ + ">"@,
        (Some(k), None) => "<redacted:"@ + k@ + ">"@,
        (None, Some(r)) => "<redacted:"@ + r@ + ">"@,
        (None, None) => "<redacted>"@,
    }
}

/// Text of a context value.
pub open spec fn context_text(v: ContextValue) -> Seq<char> {
    match v {
        ContextValue::String(s) => s@,
        ContextValue::Integer(x) => decimal_int(x as int),
        ContextValue::Unsigned(x) => decimal(x as nat),
        ContextValue::Float(f) => f.text@,
        ContextValue::Bool(b) => bool_text(b),
        ContextValue::StringArray(vs) => list_text(vs@.map_values(|s: String| s@)),
        ContextValue::IntegerArray(vs) => list_text(vs@.map_values(|x: i64| decimal_int(x as int))),
        ContextValue::UnsignedArray(vs) => list_text(vs@.map_values(|x: u64| decimal(x as nat))),
        ContextValue::FloatArray(vs) => list_text(vs@.map_values(|f: FloatRepr| f.text@)),
        ContextValue::BoolArray(vs) => list_text(vs@.map_values(|b: bool| bool_text(b))),
        ContextValue::Redacted { kind, reason } => redacted_text(kind, reason),
    }
}

/// Text of an attachment value; an object lists its fields by key.
pub closed spec fn value_text(v: AttachmentValue) -> Seq<char>
    decreases v, 0nat,
{
    match v {
        AttachmentValue::String(s) => s@,
        AttachmentValue::Integer(x) => decimal_int(x as int),
        AttachmentValue::Unsigned(x) => decimal(x as nat),
        AttachmentValue::Float(f) => f.text@,
        AttachmentValue::Bool(b) => bool_text(b),
        AttachmentValue::Array(vals) => seq!['['] + items_text(vals@, vals@.len()) + seq![']'],
        AttachmentValue::Object(entries) => seq!['{'] + fields_text(entries@, sorted_order(object_keys(entries@)), entries@.len()) + seq!['}'],
        AttachmentValue::Bytes(bytes) => "<"@ + decimal(bytes@.len()) + " bytes>"@,
        AttachmentValue::Redacted { kind, reason } => redacted_text(kind, reason),
    }
}

/// Separator before the `k`-th listed item (counting from 1).
pub open spec fn separator(k: nat) -> Seq<char> {
    if k <= 1 { Seq::empty() } else { ", "@ }
}

/// The first `k` items of a list, separated by `", "`.
pub closed spec fn items_text(vals: Seq<AttachmentValue>, k: nat) -> Seq<char>
    decreases vals, k,
{
    if k == 0 || k > vals.len() {
        Seq::empty()
    } else {
        items_text(vals, (k - 1) as nat) + separator(k) + value_text(vals[k - 1])
    }
}

/// The first `k` fields of an object in the listing `order`, each as
/// `key: value`, separated by `", "`.
pub closed spec fn fields_text(entries: Seq<(String, AttachmentValue)>, order: Seq<usize>, k: nat) -> Seq<char>
    decreases entries, k,
{
    if k == 0 || k > order.len() || order[k - 1] >= entries.len() {
        Seq::empty()
    } else {
        fields_text(entries, order, (k - 1) as nat) + separator(k) + entries[order[k - 1] as int].0@ + ": "@ + value_text(entries[order[k - 1] as int].1)
    }
}

proof fn lemma_join_step(items: Seq<Seq<char>>, i: int)
    requires
        0 <= i < items.len(),
    ensures
        join(items.take(i + 1)) == join(items.take(i)) + separator((i + 1) as nat) + items[i],
{
    assert(items.take(i + 1).drop_last() =~= items.take(i));
    if i == 0 {
        assert(join(items.take(0)) =~= Seq::<char>::empty());
        assert(join(items.take(1)) == items[0]);
        assert(separator(1) =~= Seq::<char>::empty());
        assert(Seq::<char>::empty() + Seq::<char>::empty() + items[0] =~= items[0]);
    }
}

/// Writes texts joined with `", "`.
pub fn write_joined(out: &mut String, items: &Vec<String>)
    ensures
        final(out)@ == old(out)@ + join(items@.map_values(|s: String| s@)),
{
    let ghost start = out@;
    let ghost texts = items@.map_values(|s: String| s@);
    let mut i: usize = 0;
    assert(texts.take(0) =~= Seq::<Seq<char>>::empty());
    assert(out@ =~= start + join(texts.take(0)));
    while i < items.len()
        invariant
            i <= items@.len(),
            texts == items@.map_values(|s: String| s@),
            out@ == start + join(texts.take(i as int)),
        decreases items@.len() - i,
    {
        proof {
            lemma_join_step(texts, i as int);
        }
        if i > 0 {
            push_str(out, ", ");
        }
        push_str(out, items[i].as_str());
        i += 1;
        assert(out@ =~= start + join(texts.take(i as int)));
    }
    assert(texts.take(items@.len() as int) =~= texts);
}

/// Writes texts joined with `", "` inside square brackets.
fn write_list(out: &mut String, items: &Vec<String>)
    ensures
        final(out)@ == old(out)@ + list_text(items@.map_values(|s: String| s@)),
{
    let ghost start = out@;
    push_char(out, '[');
    write_joined(out, items);
    push_char(out, ']');
    assert(out@ =~= start + list_text(items@.map_values(|s: String| s@)));
}

/// The decimal text of a signed integer.
pub fn i64_text(x: i64) -> (s: String)
    ensures
        s@ == decimal_int(x as int),
{
    let mut s = String::new();
    write_i64(&mut s, x);
    assert(s@ =~= decimal_int(x as int));
    s
}

/// The decimal text of an unsigned integer.
pub fn u64_text(x: u64) -> (s: String)
    ensures
        s@ == decimal(x as nat),
{
    let mut s = String::new();
    write_u64(&mut s, x);
    assert(s@ =~= decimal(x as nat));
    s
}

/// `true` or `false`.
pub fn bool_string(b: bool) -> (s: String)
    ensures
        s@ == bool_text(b),
{
    let mut s = String::new();
    write_bool(&mut s, b);
    assert(s@ =~= bool_text(b));
    s
}

/// Writes the text of a redacted value.
fn write_redacted(out: &mut String, kind: &Option<String>, reason: &Option<String>)
    ensures
        final(out)@ == old(out)@ + redacted_text(*kind, *reason),
{
    let ghost start = out@;
    match (kind, reason) {
        (Some(k), Some(r)) => {
            push_str(out, "<redacted:");
            push_str(out, k.as_str());
            push_str(out, ":");
            push_str(out, r.as_str());
            push_str(out, ">");
        },
        (Some(k), None) => {
            push_str(out, "<redacted:");
            push_str(out, k.as_str());
            push_str(out, ">");
        },
        (None, Some(r)) => {
            push_str(out, "<redacted:");
            push_str(out, r.as_str());
            push_str(out, ">");
        },
        (None, None) => {
            push_str(out, "<redacted>");
        },
    }
    assert(out@ =~= start + redacted_text(*kind, *reason));
}

/// Writes the text of a context value.
pub fn write_context_text(out: &mut String, v: &ContextValue)
    ensures
        final(out)@ == old(out)@ + context_text(*v),
{
    let ghost start = out@;
    match v {
        ContextValue::String(s) => push_str(out, s.as_str()),
        ContextValue::Integer(x) => write_i64(out, *x),
        ContextValue::Unsigned(x) => write_u64(out, *x),
        ContextValue::Float(f) => push_str(out, f.text.as_str()),
        ContextValue::Bool(b) => write_bool(out, *b),
        ContextValue::StringArray(vs) => {
            let mut texts: Vec<String> = Vec::new();
            let mut i: usize = 0;
            while i < vs.len()
                invariant
                    i <= vs@.len(),
                    texts@.len() == i,
                    forall|k: int| 0 <= k < i ==> #[trigger] texts@[k]@ == vs@[k]@,
                decreases vs@.len() - i,
            {
                texts.push(vs[i].clone());
                i += 1;
            }
            assert(texts@.map_values(|s: String| s@) =~= vs@.map_values(|s: String| s@));
            write_list(out, &texts);
        },
        ContextValue::IntegerArray(vs) => {
            let mut texts: Vec<String> = Vec::new();
            let mut i: usize = 0;
            while i < vs.len()
                invariant
                    i <= vs@.len(),
                    texts@.len() == i,
                    forall|k: int| 0 <= k < i ==> #[trigger] texts@[k]@ == decimal_int(vs@[k] as int),
                decreases vs@.len() - i,
            {
                texts.push(i64_text(vs[i]));
                i += 1;
            }
            assert(texts@.map_values(|s: String| s@) =~= vs@.map_values(|x: i64| decimal_int(x as int)));
            write_list(out, &texts);
        },
        ContextValue::UnsignedArray(vs) => {
            let mut texts: Vec<String> = Vec::new();
            let mut i: usize = 0;
            while i < vs.len()
                invariant
                    i <= vs@.len(),
                    texts@.len() == i,
                    forall|k: int| 0 <= k < i ==> #[trigger] texts@[k]@ == decimal(vs@[k] as nat),
                decreases vs@.len() - i,
            {
                texts.push(u64_text(vs[i]));
                i += 1;
            }
            assert(texts@.map_values(|s: String| s@) =~= vs@.map_values(|x: u64| decimal(x as nat)));
            write_list(out, &texts);
        },
        ContextValue::FloatArray(vs) => {
            let mut texts: Vec<String> = Vec::new();
            let mut i: usize = 0;
            while i < vs.len()
                invariant
                    i <= vs@.len(),
                    texts@.len() == i,
                    forall|k: int| 0 <= k < i ==> #[trigger] texts@[k]@ == vs@[k].text@,
                decreases vs@.len() - i,
            {
                texts.push(vs[i].text.clone());
                i += 1;
            }
            assert(texts@.map_values(|s: String| s@) =~= vs@.map_values(|f: FloatRepr| f.text@));
            write_list(out, &texts);
        },
        ContextValue::BoolArray(vs) => {
            let mut texts: Vec<String> = Vec::new();
            let mut i: usize = 0;
            while i < vs.len()
                invariant
                    i <= vs@.len(),
                    texts@.len() == i,
                    forall|k: int| 0 <= k < i ==> #[trigger] texts@[k]@ == bool_text(vs@[k]),
                decreases vs@.len() - i,
            {
                texts.push(bool_string(vs[i]));
                i += 1;
            }
            assert(texts@.map_values(|s: String| s@) =~= vs@.map_values(|b: bool| bool_text(b)));
            write_list(out, &texts);
        },
        ContextValue::Redacted { kind, reason } => write_redacted(out, kind, reason),
    }
}

/// The text of a context value.
pub fn context_value_text(v: &ContextValue) -> (s: String)
    ensures
        s@ == context_text(*v),
{
    let mut s = String::new();
    write_context_text(&mut s, v);
    assert(s@ =~= context_text(*v));
    s
}

/// Writes the text of an attachment value.
pub fn write_value_text(out: &mut String, v: &AttachmentValue)
    ensures
        final(out)@ == old(out)@ + value_text(*v),
    decreases *v, 2nat,
{
    let ghost start = out@;
    match v {
        AttachmentValue::String(s) => push_str(out, s.as_str()),
        AttachmentValue::Integer(x) => write_i64(out, *x),
        AttachmentValue::Unsigned(x) => write_u64(out, *x),
        AttachmentValue::Float(f) => push_str(out, f.text.as_str()),
        AttachmentValue::Bool(b) => write_bool(out, *b),
        AttachmentValue::Array(vals) => write_items_text(out, v, vals),
        AttachmentValue::Object(entries) => write_fields_text(out, v, entries),
        AttachmentValue::Bytes(bytes) => {
            push_str(out, "<");
            write_u64(out, bytes.len() as u64);
            push_str(out, " bytes>");
        },
        AttachmentValue::Redacted { kind, reason } => write_redacted(out, kind, reason),
    }
    assert(out@ =~= start + value_text(*v));
}

fn write_items_text(out: &mut String, v: &AttachmentValue, vals: &Vec<AttachmentValue>)
    requires
        *v == AttachmentValue::Array(*vals),
    ensures
        final(out)@ == old(out)@ + value_text(*v),
    decreases *v, 1nat,
{
    let ghost start = out@;
    push_char(out, '[');
    let mut i: usize = 0;
    while i < vals.len()
        invariant
            *v == AttachmentValue::Array(*vals),
            i <= vals@.len(),
            out@ == start + seq!['['] + items_text(vals@, i as nat),
        decreases vals@.len() - i,
    {
        if i > 0 {
            push_str(out, ", ");
        }
        proof {
            let x = vals@[i as int];
            assert(decreases_to!(*v => (*v)->Array_0));
            assert(decreases_to!(*vals => vals@));
            assert(decreases_to!(vals@ => x));
            assert(decreases_to!(*v => x));
        }
        write_value_text(out, &vals[i]);
        i += 1;
        assert(out@ =~= start + seq!['['] + items_text(vals@, i as nat));
    }
    push_char(out, ']');
    assert(out@ =~= start + value_text(*v));
}

fn write_fields_text(out: &mut String, v: &AttachmentValue, entries: &Vec<(String, AttachmentValue)>)
    requires
        *v == AttachmentValue::Object(*entries),
    ensures
        final(out)@ == old(out)@ + value_text(*v),
    decreases *v, 1nat,
{
    let ghost start = out@;
    let keys = entry_keys(entries);
    let order = sort_order(&keys);
    proof {
        assert(crate::ordering::keys_view(keys@) == object_keys(entries@));
    }
    push_char(out, '{');
    let mut i: usize = 0;
    while i < order.len()
        invariant
            *v == AttachmentValue::Object(*entries),
            is_sorted_order(object_keys(entries@), order@),
            order@ == sorted_order(object_keys(entries@)),
            i <= order@.len(),
            out@ == start + seq!['{'] + fields_text(entries@, order@, i as nat),
        decreases order@.len() - i,
    {
        let j = order[i];
        assert(j < entries@.len());
        if i > 0 {
            push_str(out, ", ");
        }
        push_str(out, entries[j].0.as_str());
        push_str(out, ": ");
        proof {
            let e = entries@[j as int];
            assert(decreases_to!(*v => (*v)->Object_0));
            assert(decreases_to!(*entries => entries@));
            assert(decreases_to!(entries@ => e));
            assert(decreases_to!(e => e.1));
            assert(decreases_to!(*v => e.1));
        }
        write_value_text(out, &entries[j].1);
        i += 1;
        assert(out@ =~= start + seq!['{'] + fields_text(entries@, order@, i as nat));
    }
    push_char(out, '}');
    assert(order@.len() == entries@.len());
    assert(out@ =~= start + value_text(*v));
}

/// The text of an attachment value.
pub fn attachment_value_text(v: &AttachmentValue) -> (s: String)
    ensures
        s@ == value_text(*v),
{
    let mut s = String::new();
    write_value_text(&mut s, v);
    assert(s@ =~= value_text(*v));
    s
}

} // verus!
