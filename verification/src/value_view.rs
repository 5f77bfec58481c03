//! Abstract views of attachment and context values.

use vstd::prelude::*;
use crate::values::{AttachmentValue, ContextValue, FloatRepr};

verus! {

/// The abstract content of an attachment value.
pub enum ValueView {
    String(Seq<char>),
    Integer(int),
    Unsigned(nat),
    Float(bool, Seq<char>),
    Bool(bool),
    Array(Seq<ValueView>),
    Object(Seq<(Seq<char>, ValueView)>),
    Bytes(Seq<u8>),
    Redacted(Option<Seq<char>>, Option<Seq<char>>),
}

/// An optional string's characters.
pub open spec fn opt_view(s: Option<String>) -> Option<Seq<char>> {
    match s {
        Some(x) => Some(x@),
        None => None,
    }
}

/// The abstract content of an attachment value.
pub open spec fn value_view(v: AttachmentValue) -> ValueView
    decreases v, 0nat,
{
    match v {
        AttachmentValue::String(s) => ValueView::String(s@),
        AttachmentValue::Integer(x) => ValueView::Integer(x as int),
        AttachmentValue::Unsigned(x) => ValueView::Unsigned(x as nat),
        AttachmentValue::Float(f) => ValueView::Float(f.finite, f.text@),
        AttachmentValue::Bool(b) => ValueView::Bool(b),
        AttachmentValue::Array(vals) => ValueView::Array(values_view(vals@, vals@.len())),
        AttachmentValue::Object(entries) => ValueView::Object(entries_view(entries@, entries@.len())),
        AttachmentValue::Bytes(b) => ValueView::Bytes(b@),
        AttachmentValue::Redacted { kind, reason } => ValueView::Redacted(opt_view(kind), opt_view(reason)),
    }
}

/// The views of the first `k` values.
pub open spec fn values_view(vals: Seq<AttachmentValue>, k: nat) -> Seq<ValueView>
    decreases vals, k,
{
    if k == 0 || k > vals.len() {
        Seq::empty()
    } else {
        values_view(vals, (k - 1) as nat).push(value_view(vals[k - 1]))
    }
}

/// The views of the first `k` entries.
pub open spec fn entries_view(entries: Seq<(String, AttachmentValue)>, k: nat) -> Seq<(Seq<char>, ValueView)>
    decreases entries, k,
{
    if k == 0 || k > entries.len() {
        Seq::empty()
    } else {
        entries_view(entries, (k - 1) as nat).push((entries[k - 1].0@, value_view(entries[k - 1].1)))
    }
}

proof fn lemma_values_view_push(s: Seq<AttachmentValue>, x: AttachmentValue, k: nat)
    requires
        k <= s.len(),
    ensures
        values_view(s.push(x), k) == values_view(s, k),
    decreases k,
{
    if k > 0 {
        lemma_values_view_push(s, x, (k - 1) as nat);
        assert(s.push(x)[k - 1] == s[k - 1]);
    }
}

proof fn lemma_entries_view_push(s: Seq<(String, AttachmentValue)>, x: (String, AttachmentValue), k: nat)
    requires
        k <= s.len(),
    ensures
        entries_view(s.push(x), k) == entries_view(s, k),
    decreases k,
{
    if k > 0 {
        lemma_entries_view_push(s, x, (k - 1) as nat);
        assert(s.push(x)[k - 1] == s[k - 1]);
    }
}

fn clone_opt_string(s: &Option<String>) -> (r: Option<String>)
    ensures
        opt_view(r) == opt_view(*s),
{
    match s {
        Some(x) => Some(x.clone()),
        None => None,
    }
}

fn clone_float(f: &FloatRepr) -> (r: FloatRepr)
    ensures
        r.finite == f.finite,
        r.text@ == f.text@,
{
    FloatRepr { finite: f.finite, text: f.text.clone() }
}

/// A copy of an attachment value with the same content.
pub fn clone_value(v: &AttachmentValue) -> (c: AttachmentValue)
    ensures
        value_view(c) == value_view(*v),
    decreases *v,
{
    match v {
        AttachmentValue::String(s) => AttachmentValue::String(s.clone()),
        AttachmentValue::Integer(x) => AttachmentValue::Integer(*x),
        AttachmentValue::Unsigned(x) => AttachmentValue::Unsigned(*x),
        AttachmentValue::Float(f) => AttachmentValue::Float(clone_float(f)),
        AttachmentValue::Bool(b) => AttachmentValue::Bool(*b),
        AttachmentValue::Array(vals) => {
            let mut out: Vec<AttachmentValue> = Vec::new();
            let mut i: usize = 0;
            while i < vals.len()
                invariant
                    *v == AttachmentValue::Array(*vals),
                    i <= vals@.len(),
                    out@.len() == i,
                    values_view(out@, i as nat) == values_view(vals@, i as nat),
                decreases vals@.len() - i,
            {
                proof {
                    assert(decreases_to!(*v => (*v)->Array_0));
                    assert(decreases_to!(*vals => vals@));
                    assert(decreases_to!(vals@ => vals@[i as int]));
                    assert(decreases_to!(*v => vals@[i as int]));
                }
                let c = clone_value(&vals[i]);
                let ghost o = out@;
                out.push(c);
                proof {
                    lemma_values_view_push(o, c, i as nat);
                    assert(out@[i as int] == c);
                }
                i += 1;
            }
            AttachmentValue::Array(out)
        },
        AttachmentValue::Object(entries) => {
            let mut out: Vec<(String, AttachmentValue)> = Vec::new();
            let mut i: usize = 0;
            while i < entries.len()
                invariant
                    *v == AttachmentValue::Object(*entries),
                    i <= entries@.len(),
                    out@.len() == i,
                    entries_view(out@, i as nat) == entries_view(entries@, i as nat),
                decreases entries@.len() - i,
            {
                proof {
                    assert(decreases_to!(*v => (*v)->Object_0));
                    assert(decreases_to!(*entries => entries@));
                    assert(decreases_to!(entries@ => entries@[i as int]));
                    assert(decreases_to!(entries@[i as int] => entries@[i as int].1));
                    assert(decreases_to!(*v => entries@[i as int].1));
                }
                let c = clone_value(&entries[i].1);
                let k = entries[i].0.clone();
                let ghost o = out@;
                out.push((k, c));
                proof {
                    lemma_entries_view_push(o, (k, c), i as nat);
                    assert(out@[i as int] == (k, c));
                }
                i += 1;
            }
            AttachmentValue::Object(out)
        },
        AttachmentValue::Bytes(b) => AttachmentValue::Bytes(b.clone()),
        AttachmentValue::Redacted { kind, reason } => AttachmentValue::Redacted { kind: clone_opt_string(kind), reason: clone_opt_string(reason) },
    }
}

/// The abstract content of a context value, as the attachment value it
/// converts to: arrays become arrays of the matching scalars.
pub open spec fn context_value_view(c: ContextValue) -> ValueView {
    match c {
        ContextValue::String(s) => ValueView::String(s@),
        ContextValue::Integer(x) => ValueView::Integer(x as int),
        ContextValue::Unsigned(x) => ValueView::Unsigned(x as nat),
        ContextValue::Float(f) => ValueView::Float(f.finite, f.text@),
        ContextValue::Bool(b) => ValueView::Bool(b),
        ContextValue::StringArray(v) => ValueView::Array(v@.map_values(|s: String| ValueView::String(s@))),
        ContextValue::IntegerArray(v) => ValueView::Array(v@.map_values(|x: i64| ValueView::Integer(x as int))),
        ContextValue::UnsignedArray(v) => ValueView::Array(v@.map_values(|x: u64| ValueView::Unsigned(x as nat))),
        ContextValue::FloatArray(v) => ValueView::Array(v@.map_values(|f: FloatRepr| ValueView::Float(f.finite, f.text@))),
        ContextValue::BoolArray(v) => ValueView::Array(v@.map_values(|b: bool| ValueView::Bool(b))),
        ContextValue::Redacted { kind, reason } => ValueView::Redacted(opt_view(kind), opt_view(reason)),
    }
}

/// Appends `x` to `out`, keeping the views of the earlier values.
fn push_value(out: &mut Vec<AttachmentValue>, x: AttachmentValue)
    ensures
        final(out)@ == old(out)@.push(x),
        values_view(final(out)@, final(out)@.len()) == values_view(old(out)@, old(out)@.len()).push(value_view(x)),
{
    let ghost o = out@;
    out.push(x);
    proof {
        lemma_values_view_push(o, x, o.len());
        assert(out@[o.len() as int] == x);
    }
}

/// The attachment value that a context value converts to.
pub fn attachment_from_context(c: &ContextValue) -> (v: AttachmentValue)
    ensures
        value_view(v) == context_value_view(*c),
{
    match c {
        ContextValue::String(s) => AttachmentValue::String(s.clone()),
        ContextValue::Integer(x) => AttachmentValue::Integer(*x),
        ContextValue::Unsigned(x) => AttachmentValue::Unsigned(*x),
        ContextValue::Float(f) => AttachmentValue::Float(clone_float(f)),
        ContextValue::Bool(b) => AttachmentValue::Bool(*b),
        ContextValue::StringArray(v) => {
            let ghost target = v@.map_values(|s: String| ValueView::String(s@));
            let mut out: Vec<AttachmentValue> = Vec::new();
            let mut i: usize = 0;
            while i < v.len()
                invariant
                    i <= v@.len(),
                    out@.len() == i,
                    target == v@.map_values(|s: String| ValueView::String(s@)),
                    values_view(out@, out@.len()) == target.subrange(0, i as int),
                decreases v@.len() - i,
            {
                push_value(&mut out, AttachmentValue::String(v[i].clone()));
                assert(target.subrange(0, i as int + 1) =~= target.subrange(0, i as int).push(target[i as int]));
                i += 1;
            }
            assert(target.subrange(0, v@.len() as int) =~= target);
            AttachmentValue::Array(out)
        },
        ContextValue::IntegerArray(v) => {
            let ghost target = v@.map_values(|x: i64| ValueView::Integer(x as int));
            let mut out: Vec<AttachmentValue> = Vec::new();
            let mut i: usize = 0;
            while i < v.len()
                invariant
                    i <= v@.len(),
                    out@.len() == i,
                    target == v@.map_values(|x: i64| ValueView::Integer(x as int)),
                    values_view(out@, out@.len()) == target.subrange(0, i as int),
                decreases v@.len() - i,
            {
                push_value(&mut out, AttachmentValue::Integer(v[i]));
                assert(target.subrange(0, i as int + 1) =~= target.subrange(0, i as int).push(target[i as int]));
                i += 1;
            }
            assert(target.subrange(0, v@.len() as int) =~= target);
            AttachmentValue::Array(out)
        },
        ContextValue::UnsignedArray(v) => {
            let ghost target = v@.map_values(|x: u64| ValueView::Unsigned(x as nat));
            let mut out: Vec<AttachmentValue> = Vec::new();
            let mut i: usize = 0;
            while i < v.len()
                invariant
                    i <= v@.len(),
                    out@.len() == i,
                    target == v@.map_values(|x: u64| ValueView::Unsigned(x as nat)),
                    values_view(out@, out@.len()) == target.subrange(0, i as int),
                decreases v@.len() - i,
            {
                push_value(&mut out, AttachmentValue::Unsigned(v[i]));
                assert(target.subrange(0, i as int + 1) =~= target.subrange(0, i as int).push(target[i as int]));
                i += 1;
            }
            assert(target.subrange(0, v@.len() as int) =~= target);
            AttachmentValue::Array(out)
        },
        ContextValue::FloatArray(v) => {
            let ghost target = v@.map_values(|f: FloatRepr| ValueView::Float(f.finite, f.text@));
            let mut out: Vec<AttachmentValue> = Vec::new();
            let mut i: usize = 0;
            while i < v.len()
                invariant
                    i <= v@.len(),
                    out@.len() == i,
                    target == v@.map_values(|f: FloatRepr| ValueView::Float(f.finite, f.text@)),
                    values_view(out@, out@.len()) == target.subrange(0, i as int),
                decreases v@.len() - i,
            {
                push_value(&mut out, AttachmentValue::Float(clone_float(&v[i])));
                assert(target.subrange(0, i as int + 1) =~= target.subrange(0, i as int).push(target[i as int]));
                i += 1;
            }
            assert(target.subrange(0, v@.len() as int) =~= target);
            AttachmentValue::Array(out)
        },
        ContextValue::BoolArray(v) => {
            let ghost target = v@.map_values(|b: bool| ValueView::Bool(b));
            let mut out: Vec<AttachmentValue> = Vec::new();
            let mut i: usize = 0;
            while i < v.len()
                invariant
                    i <= v@.len(),
                    out@.len() == i,
                    target == v@.map_values(|b: bool| ValueView::Bool(b)),
                    values_view(out@, out@.len()) == target.subrange(0, i as int),
                decreases v@.len() - i,
            {
                push_value(&mut out, AttachmentValue::Bool(v[i]));
                assert(target.subrange(0, i as int + 1) =~= target.subrange(0, i as int).push(target[i as int]));
                i += 1;
            }
            assert(target.subrange(0, v@.len() as int) =~= target);
            AttachmentValue::Array(out)
        },
        ContextValue::Redacted { kind, reason } => AttachmentValue::Redacted { kind: clone_opt_string(kind), reason: clone_opt_string(reason) },
    }
}

} // verus!
