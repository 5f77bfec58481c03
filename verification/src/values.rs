//! Context and attachment values and their JSON forms.

use vstd::prelude::*;
use crate::ordering::{sort_order, entry_keys, is_sorted_order, sorted_order, keys_view};
use crate::attachment_text::{object_keys, nesting, leaf_json, attachment_json, items_json, entries_json, lemma_items_step, lemma_entries_step, lemma_items_zero, lemma_entries_zero, lemma_array_json, lemma_object_json, lemma_seq_nesting, lemma_entries_nesting, lemma_items_none, lemma_entries_none, lemma_leaf_json};
use crate::json::{opt_string_field, write_opt_string_field, push_char, push_str, json_string, decimal, decimal_int, bool_text, field_prefix, item_prefix, closing, write_i64, write_u64, write_bool, write_json_string, write_object_field, write_array_item_prefix, close_array, close_object};

verus! {

/// An error code: an integer, or a string when the value is not numeric.
#[derive(Debug, PartialEq, Eq)]
pub enum ErrorCode {
    Integer(i64),
    String(String),
}

/// A floating-point number as it is rendered: its decimal text, and whether
/// it is finite (infinities and NaN cannot be written as JSON).
#[derive(Debug)]
pub struct FloatRepr {
    pub finite: bool,
    pub text: String,
}

/// A context value attached to a report.
#[derive(Debug)]
pub enum ContextValue {
    String(String),
    Integer(i64),
    Unsigned(u64),
    Float(FloatRepr),
    Bool(bool),
    StringArray(Vec<String>),
    IntegerArray(Vec<i64>),
    UnsignedArray(Vec<u64>),
    FloatArray(Vec<FloatRepr>),
    BoolArray(Vec<bool>),
    Redacted { kind: Option<String>, reason: Option<String> },
}

/// A structured attachment value.
#[derive(Debug)]
pub enum AttachmentValue {
    String(String),
    Integer(i64),
    Unsigned(u64),
    Float(FloatRepr),
    Bool(bool),
    Array(Vec<AttachmentValue>),
    /// Named entries; they are written and shown listed by key.
    Object(Vec<(String, AttachmentValue)>),
    Bytes(Vec<u8>),
    Redacted { kind: Option<String>, reason: Option<String> },
}

/// Error raised when a value cannot be written as JSON (a non-finite float).
#[derive(Debug, Clone, Copy, PartialEq, Eq, Structural)]
pub struct JsonWriteError;

/// JSON text of an error code.
pub open spec fn error_code_json(code: ErrorCode) -> Seq<char> {
    match code {
        ErrorCode::Integer(v) => decimal_int(v as int),
        ErrorCode::String(s) => json_string(s@),
    }
}

/// Writes an error code: integers as numbers, strings as JSON strings.
pub fn write_error_code(out: &mut String, code: &ErrorCode)
    ensures
        final(out)@ == old(out)@ + error_code_json(*code),
{
    match code {
        ErrorCode::Integer(v) => write_i64(out, *v),
        ErrorCode::String(s) => write_json_string(out, s.as_str()),
    }
}

/// What precedes the value of a `{"kind": ..., "value": ...}` object.
pub open spec fn kind_value_open(pretty: bool, depth: nat, kind: Seq<char>) -> Seq<char> {
    seq!['{'] + field_prefix(true, pretty, depth, "kind"@) + json_string(kind) + field_prefix(false, pretty, depth, "value"@)
}

/// A `{"kind": ..., "value": ...}` object around `value`.
pub open spec fn kind_value(pretty: bool, depth: nat, kind: Seq<char>, value: Seq<char>) -> Seq<char> {
    kind_value_open(pretty, depth, kind) + value + closing(pretty, depth, false, '}')
}

/// Writes the opening of a `{"kind": ..., "value": ...}` object; the caller
/// writes the value and closes the object with `close_object(.., false)`.
pub fn write_kind_and_value(out: &mut String, pretty: bool, depth: usize, kind: &str)
    requires
        depth < usize::MAX,
    ensures
        final(out)@ == old(out)@ + kind_value_open(pretty, depth as nat, kind@),
{
    let ghost start = out@;
    let mut first = true;
    push_char(out, '{');
    write_object_field(out, pretty, depth, &mut first, "kind");
    write_json_string(out, kind);
    write_object_field(out, pretty, depth, &mut first, "value");
    assert(out@ =~= start + kind_value_open(pretty, depth as nat, kind@));
}

/// The items of an array, each preceded by its separator and indentation.
pub open spec fn array_body(items: Seq<Seq<char>>, pretty: bool, depth: nat) -> Seq<char>
    decreases items.len(),
{
    if items.len() == 0 {
        Seq::empty()
    } else {
        array_body(items.drop_last(), pretty, depth) + item_prefix(items.len() == 1, pretty, depth) + items.last()
    }
}

/// A JSON array of the given item texts at depth `depth`.
pub open spec fn array_json(items: Seq<Seq<char>>, pretty: bool, depth: nat) -> Seq<char> {
    seq!['['] + array_body(items, pretty, depth) + closing(pretty, depth, items.len() == 0, ']')
}

/// Texts of strings as JSON strings.
pub open spec fn string_items(v: Seq<String>) -> Seq<Seq<char>> {
    v.map_values(|s: String| json_string(s@))
}

/// Texts of signed integers.
pub open spec fn int_items(v: Seq<i64>) -> Seq<Seq<char>> {
    v.map_values(|x: i64| decimal_int(x as int))
}

/// Texts of unsigned integers.
pub open spec fn uint_items(v: Seq<u64>) -> Seq<Seq<char>> {
    v.map_values(|x: u64| decimal(x as nat))
}

/// Texts of booleans.
pub open spec fn bool_items(v: Seq<bool>) -> Seq<Seq<char>> {
    v.map_values(|x: bool| bool_text(x))
}

/// Texts of bytes.
pub open spec fn byte_items(v: Seq<u8>) -> Seq<Seq<char>> {
    v.map_values(|x: u8| decimal(x as nat))
}

/// Texts of floats.
pub open spec fn float_items(v: Seq<FloatRepr>) -> Seq<Seq<char>> {
    v.map_values(|x: FloatRepr| x.text@)
}

/// Whether every float is finite.
pub open spec fn all_finite(v: Seq<FloatRepr>) -> bool {
    forall|i: int| 0 <= i < v.len() ==> (#[trigger] v[i]).finite
}

proof fn lemma_array_body_step(items: Seq<Seq<char>>, i: int, pretty: bool, depth: nat)
    requires
        0 <= i < items.len(),
    ensures
        array_body(items.subrange(0, i + 1), pretty, depth) == array_body(items.subrange(0, i), pretty, depth)
            + item_prefix(i == 0, pretty, depth) + items[i],
{
    let t = items.subrange(0, i + 1);
    assert(t.drop_last() =~= items.subrange(0, i));
}

/// Which kind of array a writer loop emits.
enum ArrayRef<'a> {
    Strings(&'a Vec<String>),
    Ints(&'a Vec<i64>),
    Uints(&'a Vec<u64>),
    Bools(&'a Vec<bool>),
    Floats(&'a Vec<FloatRepr>),
    Bytes(&'a Vec<u8>),
}

spec fn array_ref_items(a: ArrayRef) -> Seq<Seq<char>> {
    match a {
        ArrayRef::Strings(v) => string_items(v@),
        ArrayRef::Ints(v) => int_items(v@),
        ArrayRef::Uints(v) => uint_items(v@),
        ArrayRef::Bools(v) => bool_items(v@),
        ArrayRef::Floats(v) => float_items(v@),
        ArrayRef::Bytes(v) => byte_items(v@),
    }
}

fn array_ref_len(a: &ArrayRef) -> (n: usize)
    ensures
        n == array_ref_items(*a).len(),
{
    match a {
        ArrayRef::Strings(v) => v.len(),
        ArrayRef::Ints(v) => v.len(),
        ArrayRef::Uints(v) => v.len(),
        ArrayRef::Bools(v) => v.len(),
        ArrayRef::Floats(v) => v.len(),
        ArrayRef::Bytes(v) => v.len(),
    }
}

fn write_array_element(out: &mut String, a: &ArrayRef, i: usize)
    requires
        i < array_ref_items(*a).len(),
    ensures
        final(out)@ == old(out)@ + array_ref_items(*a)[i as int],
{
    match a {
        ArrayRef::Strings(v) => write_json_string(out, v[i].as_str()),
        ArrayRef::Ints(v) => write_i64(out, v[i]),
        ArrayRef::Uints(v) => write_u64(out, v[i]),
        ArrayRef::Bools(v) => write_bool(out, v[i]),
        ArrayRef::Floats(v) => push_str(out, v[i].text.as_str()),
        ArrayRef::Bytes(v) => write_u64(out, v[i] as u64),
    }
}

/// Writes the array `a` at depth `depth`.
fn write_plain_array(out: &mut String, pretty: bool, depth: usize, a: &ArrayRef)
    requires
        depth < usize::MAX,
    ensures
        final(out)@ == old(out)@ + array_json(array_ref_items(*a), pretty, depth as nat),
{
    let ghost start = out@;
    let ghost items = array_ref_items(*a);
    push_char(out, '[');
    let n = array_ref_len(a);
    let mut first = true;
    let mut i: usize = 0;
    while i < n
        invariant
            n == items.len(),
            items == array_ref_items(*a),
            depth < usize::MAX,
            i <= n,
            first == (i == 0),
            out@ == start + seq!['['] + array_body(items.subrange(0, i as int), pretty, depth as nat),
        decreases n - i,
    {
        write_array_item_prefix(out, pretty, depth, &mut first);
        write_array_element(out, a, i);
        proof {
            lemma_array_body_step(items, i as int, pretty, depth as nat);
        }
        i = i + 1;
    }
    assert(items.subrange(0, n as int) =~= items);
    close_array(out, pretty, depth, first);
    assert(out@ =~= start + array_json(items, pretty, depth as nat));
}

/// The inner object of a redacted value.
pub open spec fn redacted_inner(pretty: bool, depth: nat, kind: Option<String>, reason: Option<String>) -> Seq<char> {
    seq!['{'] + opt_string_field(true, pretty, depth + 1, "kind"@, kind) + opt_string_field(kind.is_none(), pretty, depth + 1, "reason"@, reason)
        + closing(pretty, depth + 1, kind.is_none() && reason.is_none(), '}')
}

fn write_redacted_inner(out: &mut String, pretty: bool, depth: usize, kind: &Option<String>, reason: &Option<String>)
    requires
        depth + 2 < usize::MAX,
    ensures
        final(out)@ == old(out)@ + redacted_inner(pretty, depth as nat, *kind, *reason),
{
    let ghost start = out@;
    let mut inner_first = true;
    push_char(out, '{');
    write_opt_string_field(out, pretty, depth + 1, &mut inner_first, "kind", kind);
    let ghost a = out@;
    assert(a =~= start + seq!['{'] + opt_string_field(true, pretty, depth as nat + 1, "kind"@, *kind));
    write_opt_string_field(out, pretty, depth + 1, &mut inner_first, "reason", reason);
    let ghost b = out@;
    assert(b =~= a + opt_string_field(kind.is_none(), pretty, depth as nat + 1, "reason"@, *reason));
    close_object(out, pretty, depth + 1, inner_first);
    assert(out@ =~= start + redacted_inner(pretty, depth as nat, *kind, *reason));
}

/// The JSON object for a redacted value.
pub open spec fn redacted_json(pretty: bool, depth: nat, kind: Option<String>, reason: Option<String>) -> Seq<char> {
    kind_value(pretty, depth, "redacted"@, redacted_inner(pretty, depth, kind, reason))
}

/// Writes the object for a redacted value, with its kind and reason when known.
pub fn write_redacted_obj(out: &mut String, pretty: bool, depth: usize, kind: &Option<String>, reason: &Option<String>)
    requires
        depth + 2 < usize::MAX,
    ensures
        final(out)@ == old(out)@ + redacted_json(pretty, depth as nat, *kind, *reason),
{
    let ghost start = out@;
    write_kind_and_value(out, pretty, depth, "redacted");
    write_redacted_inner(out, pretty, depth, kind, reason);
    close_object(out, pretty, depth, false);
    assert(out@ =~= start + redacted_json(pretty, depth as nat, *kind, *reason));
}

/// JSON of a context value, or `None` when it holds a non-finite float.
pub open spec fn context_value_json(v: ContextValue, pretty: bool, depth: nat) -> Option<Seq<char>> {
    match v {
        ContextValue::String(s) => Some(kind_value(pretty, depth, "string"@, json_string(s@))),
        ContextValue::Integer(x) => Some(kind_value(pretty, depth, "integer"@, decimal_int(x as int))),
        ContextValue::Unsigned(x) => Some(kind_value(pretty, depth, "unsigned"@, decimal(x as nat))),
        ContextValue::Float(f) => if f.finite {
            Some(kind_value(pretty, depth, "float"@, f.text@))
        } else {
            None
        },
        ContextValue::Bool(b) => Some(kind_value(pretty, depth, "bool"@, bool_text(b))),
        ContextValue::StringArray(v) => Some(kind_value(pretty, depth, "string_array"@, array_json(string_items(v@), pretty, depth + 1))),
        ContextValue::IntegerArray(v) => Some(kind_value(pretty, depth, "integer_array"@, array_json(int_items(v@), pretty, depth + 1))),
        ContextValue::UnsignedArray(v) => Some(kind_value(pretty, depth, "unsigned_array"@, array_json(uint_items(v@), pretty, depth + 1))),
        ContextValue::FloatArray(v) => if all_finite(v@) {
            Some(kind_value(pretty, depth, "float_array"@, array_json(float_items(v@), pretty, depth + 1)))
        } else {
            None
        },
        ContextValue::BoolArray(v) => Some(kind_value(pretty, depth, "bool_array"@, array_json(bool_items(v@), pretty, depth + 1))),
        ContextValue::Redacted { kind, reason } => Some(redacted_json(pretty, depth, kind, reason)),
    }
}

/// The floats of a context value are finite.
pub open spec fn context_floats_finite(v: ContextValue) -> bool {
    match v {
        ContextValue::Float(f) => f.finite,
        ContextValue::FloatArray(v) => all_finite(v@),
        _ => true,
    }
}

/// Writing a context value as JSON fails exactly when it holds a float that
/// is not finite.
pub proof fn law_context_json_fails_only_on_non_finite(v: ContextValue, pretty: bool, depth: nat)
    ensures
        context_value_json(v, pretty, depth) is Some <==> context_floats_finite(v),
{
}

/// Writes a `{"kind": kind, "value": [...]}` object holding the array `a`.
fn write_context_array(out: &mut String, pretty: bool, depth: usize, kind: &str, a: &ArrayRef)
    requires
        depth + 2 < usize::MAX,
    ensures
        final(out)@ == old(out)@ + kind_value(pretty, depth as nat, kind@, array_json(array_ref_items(*a), pretty, depth as nat + 1)),
{
    let ghost start = out@;
    write_kind_and_value(out, pretty, depth, kind);
    write_plain_array(out, pretty, depth + 1, a);
    close_object(out, pretty, depth, false);
    assert(out@ =~= start + kind_value(pretty, depth as nat, kind@, array_json(array_ref_items(*a), pretty, depth as nat + 1)));
}

fn all_finite_exec(v: &Vec<FloatRepr>) -> (r: bool)
    ensures
        r == all_finite(v@),
{
    let mut i: usize = 0;
    while i < v.len()
        invariant
            i <= v@.len(),
            forall|j: int| 0 <= j < i ==> (#[trigger] v@[j]).finite,
        decreases v@.len() - i,
    {
        if !v[i].finite {
            return false;
        }
        i = i + 1;
    }
    true
}

/// A scalar written as the value of a `{"kind": ..., "value": ...}` object.
enum Scalar<'a> {
    Text(&'a str),
    Signed(i64),
    Unsigned(u64),
    Number(&'a str),
    Flag(bool),
}

spec fn scalar_text(sc: Scalar) -> Seq<char> {
    match sc {
        Scalar::Text(s) => json_string(s@),
        Scalar::Signed(x) => decimal_int(x as int),
        Scalar::Unsigned(x) => decimal(x as nat),
        Scalar::Number(s) => s@,
        Scalar::Flag(b) => bool_text(b),
    }
}

fn write_kind_scalar(out: &mut String, pretty: bool, depth: usize, kind: &str, sc: Scalar)
    requires
        depth < usize::MAX,
    ensures
        final(out)@ == old(out)@ + kind_value(pretty, depth as nat, kind@, scalar_text(sc)),
{
    let ghost start = out@;
    write_kind_and_value(out, pretty, depth, kind);
    match sc {
        Scalar::Text(s) => write_json_string(out, s),
        Scalar::Signed(x) => write_i64(out, x),
        Scalar::Unsigned(x) => write_u64(out, x),
        Scalar::Number(s) => push_str(out, s),
        Scalar::Flag(b) => write_bool(out, b),
    }
    close_object(out, pretty, depth, false);
    assert(out@ =~= start + kind_value(pretty, depth as nat, kind@, scalar_text(sc)));
}

/// Writes a context value as a `{"kind": ..., "value": ...}` object; fails on
/// a non-finite float.
pub fn write_context_value(out: &mut String, pretty: bool, depth: usize, value: &ContextValue) -> (r: Result<(), JsonWriteError>)
    requires
        depth + 2 < usize::MAX,
    ensures
        r is Ok <==> context_value_json(*value, pretty, depth as nat) is Some,
        r is Ok ==> final(out)@ == old(out)@ + context_value_json(*value, pretty, depth as nat)->0,
{
    match value {
        ContextValue::String(s) => write_kind_scalar(out, pretty, depth, "string", Scalar::Text(s.as_str())),
        ContextValue::Integer(x) => write_kind_scalar(out, pretty, depth, "integer", Scalar::Signed(*x)),
        ContextValue::Unsigned(x) => write_kind_scalar(out, pretty, depth, "unsigned", Scalar::Unsigned(*x)),
        ContextValue::Float(f) => {
            if !f.finite {
                return Err(JsonWriteError);
            }
            write_kind_scalar(out, pretty, depth, "float", Scalar::Number(f.text.as_str()));
        },
        ContextValue::Bool(b) => write_kind_scalar(out, pretty, depth, "bool", Scalar::Flag(*b)),
        ContextValue::StringArray(v) => {
            write_context_array(out, pretty, depth, "string_array", &ArrayRef::Strings(v));
        },
        ContextValue::IntegerArray(v) => {
            write_context_array(out, pretty, depth, "integer_array", &ArrayRef::Ints(v));
        },
        ContextValue::UnsignedArray(v) => {
            write_context_array(out, pretty, depth, "unsigned_array", &ArrayRef::Uints(v));
        },
        ContextValue::FloatArray(v) => {
            if !all_finite_exec(v) {
                return Err(JsonWriteError);
            }
            write_context_array(out, pretty, depth, "float_array", &ArrayRef::Floats(v));
        },
        ContextValue::BoolArray(v) => {
            write_context_array(out, pretty, depth, "bool_array", &ArrayRef::Bools(v));
        },
        ContextValue::Redacted { kind, reason } => {
            write_redacted_obj(out, pretty, depth, kind, reason);
        },
    }
    Ok(())
}

} // verus!

verus! {
/// Writes an attachment value that holds no other value; fails on a
/// non-finite float.
fn write_leaf_value(out: &mut String, pretty: bool, depth: usize, value: &AttachmentValue) -> (r: Result<(), JsonWriteError>)
    requires
        depth + 2 < usize::MAX,
        !(value is Array || value is Object),
    ensures
        r is Ok <==> leaf_json(*value, pretty, depth as nat) is Some,
        r is Ok ==> final(out)@ == old(out)@ + leaf_json(*value, pretty, depth as nat)->0,
{
    match value {
        AttachmentValue::String(s) => write_kind_scalar(out, pretty, depth, "string", Scalar::Text(s.as_str())),
        AttachmentValue::Integer(x) => write_kind_scalar(out, pretty, depth, "integer", Scalar::Signed(*x)),
        AttachmentValue::Unsigned(x) => write_kind_scalar(out, pretty, depth, "unsigned", Scalar::Unsigned(*x)),
        AttachmentValue::Float(f) => {
            if !f.finite {
                return Err(JsonWriteError);
            }
            write_kind_scalar(out, pretty, depth, "float", Scalar::Number(f.text.as_str()));
        },
        AttachmentValue::Bool(b) => write_kind_scalar(out, pretty, depth, "bool", Scalar::Flag(*b)),
        AttachmentValue::Bytes(bytes) => write_context_array(out, pretty, depth, "bytes", &ArrayRef::Bytes(bytes)),
        AttachmentValue::Redacted { kind, reason } => write_redacted_obj(out, pretty, depth, kind, reason),
        _ => {},
    }
    Ok(())
}

/// Writes an attachment value as a `{"kind": ..., "value": ...}` object,
/// nested values included; fails on a non-finite float.
pub fn write_attachment_value(out: &mut String, pretty: bool, depth: usize, value: &AttachmentValue) -> (r: Result<(), JsonWriteError>)
    requires
        depth + 2 * nesting(*value) + 2 < usize::MAX,
    ensures
        r is Ok <==> attachment_json(*value, pretty, depth as nat) is Some,
        r is Ok ==> final(out)@ == old(out)@ + attachment_json(*value, pretty, depth as nat)->0,
    decreases *value, 2nat,
{
    match value {
        AttachmentValue::Array(vals) => write_attachment_array(out, pretty, depth, value, vals),
        AttachmentValue::Object(entries) => write_attachment_object(out, pretty, depth, value, entries),
        _ => {
            proof {
                lemma_leaf_json(*value, pretty, depth as nat);
            }
            write_leaf_value(out, pretty, depth, value)
        },
    }
}

#[verifier::spinoff_prover]
#[verifier::rlimit(40)]
fn write_attachment_array(out: &mut String, pretty: bool, depth: usize, value: &AttachmentValue, vals: &Vec<AttachmentValue>) -> (r: Result<(), JsonWriteError>)
    requires
        *value == AttachmentValue::Array(*vals),
        depth + 2 * nesting(*value) + 2 < usize::MAX,
    ensures
        r is Ok <==> attachment_json(*value, pretty, depth as nat) is Some,
        r is Ok ==> final(out)@ == old(out)@ + attachment_json(*value, pretty, depth as nat)->0,
    decreases *value, 1nat,
{
    let ghost start = out@;
    write_kind_and_value(out, pretty, depth, "array");
    let ghost mid = out@;
    let mut first = true;
    push_char(out, '[');
    let n = vals.len();
    let mut i: usize = 0;
    proof {
        lemma_items_zero(vals@, pretty, depth as nat + 1);
    }
    while i < n
        invariant
            *value == AttachmentValue::Array(*vals),
            n == vals@.len(),
            i <= n,
            first == (i == 0),
            depth + 2 * nesting(*value) + 2 < usize::MAX,
            items_json(vals@, i as nat, pretty, depth as nat + 1) is Some,
            out@ == mid + seq!['['] + items_json(vals@, i as nat, pretty, depth as nat + 1)->0,
        decreases n - i,
    {
        write_array_item_prefix(out, pretty, depth + 1, &mut first);
        proof {
            lemma_seq_nesting(vals@, vals@.len(), i as int);
            assert(decreases_to!(*value => vals@[i as int]));
        }
        let res = write_attachment_value(out, pretty, depth + 2, &vals[i]);
        proof {
            lemma_items_step(vals@, i as nat, pretty, depth as nat + 1);
        }
        if res.is_err() {
            proof {
                lemma_items_none(vals@, (i + 1) as nat, vals@.len(), pretty, depth as nat + 1);
                lemma_array_json(*vals, pretty, depth as nat);
            }
            return res;
        }
        i = i + 1;
    }
    close_array(out, pretty, depth + 1, first);
    close_object(out, pretty, depth, false);
    proof {
        lemma_array_json(*vals, pretty, depth as nat);
    }
    assert(out@ =~= start + attachment_json(*value, pretty, depth as nat)->0);
    Ok(())
}

#[verifier::spinoff_prover]
#[verifier::rlimit(40)]
fn write_attachment_object(out: &mut String, pretty: bool, depth: usize, value: &AttachmentValue, entries: &Vec<(String, AttachmentValue)>) -> (r: Result<(), JsonWriteError>)
    requires
        *value == AttachmentValue::Object(*entries),
        depth + 2 * nesting(*value) + 2 < usize::MAX,
    ensures
        r is Ok <==> attachment_json(*value, pretty, depth as nat) is Some,
        r is Ok ==> final(out)@ == old(out)@ + attachment_json(*value, pretty, depth as nat)->0,
    decreases *value, 1nat,
{
    let ghost start = out@;
    let keys = entry_keys(entries);
    let order = sort_order(&keys);
    proof {
        assert(keys_view(keys@) == object_keys(entries@));
    }
    write_kind_and_value(out, pretty, depth, "object");
    let ghost mid = out@;
    let mut first = true;
    push_char(out, '{');
    let n = order.len();
    let mut i: usize = 0;
    proof {
        lemma_entries_zero(entries@, order@, pretty, depth as nat + 1);
    }
    while i < n
        invariant
            *value == AttachmentValue::Object(*entries),
            is_sorted_order(object_keys(entries@), order@),
            order@ == sorted_order(object_keys(entries@)),
            n == order@.len(),
            n == entries@.len(),
            i <= n,
            first == (i == 0),
            depth + 2 * nesting(*value) + 2 < usize::MAX,
            entries_json(entries@, order@, i as nat, pretty, depth as nat + 1) is Some,
            out@ == mid + seq!['{'] + entries_json(entries@, order@, i as nat, pretty, depth as nat + 1)->0,
        decreases n - i,
    {
        let j = order[i];
        assert(j < entries@.len());
        write_object_field(out, pretty, depth + 1, &mut first, entries[j].0.as_str());
        proof {
            lemma_entries_nesting(entries@, entries@.len(), j as int);
            assert(decreases_to!(*value => entries@[j as int].1));
        }
        let res = write_attachment_value(out, pretty, depth + 2, &entries[j].1);
        proof {
            lemma_entries_step(entries@, order@, i as nat, pretty, depth as nat + 1);
        }
        if res.is_err() {
            proof {
                lemma_entries_none(entries@, order@, (i + 1) as nat, order@.len(), pretty, depth as nat + 1);
                lemma_object_json(*entries, pretty, depth as nat);
            }
            return res;
        }
        i = i + 1;
    }
    close_object(out, pretty, depth + 1, first);
    close_object(out, pretty, depth, false);
    proof {
        lemma_object_json(*entries, pretty, depth as nat);
    }
    assert(out@ =~= start + attachment_json(*value, pretty, depth as nat)->0);
    Ok(())
}

} // verus!
