//! What the derive and set macros read from a variant's attributes and
//! fields: `#[from]` and `#[source]` markers, binding names, and display
//! modes.

use vstd::prelude::*;
use crate::json::{decimal, write_u64, push_str};

verus! {

/// The kind of an attribute on a variant or field.
#[derive(Debug, Clone, Copy, PartialEq, Eq, Structural)]
pub enum AttrKind {
    From,
    Source,
    Display,
    Other,
}

/// An attribute: its kind and whether it is a bare path (no arguments).
#[derive(Debug, Clone, Copy, PartialEq, Eq, Structural)]
pub struct AttrMark {
    pub kind: AttrKind,
    pub path_only: bool,
}

/// What the markers of a field, a variant or its fields were refused for.
#[derive(Debug, Clone, Copy, PartialEq, Eq, Structural)]
pub enum MarkError {
    /// `#[from]` twice on one field or variant.
    DuplicateFrom,
    /// `#[from(..)]` with arguments.
    FromWithArguments,
    /// `#[source]` twice on one field.
    DuplicateSource,
    /// `#[source(..)]` with arguments.
    SourceWithArguments,
    /// More than one field marked `#[source]` or `#[from]`.
    MultipleSourceFields,
    /// `#[from]` on a field of a variant with other fields.
    FromNeedsSingleField,
    /// `#[from]` on the variant and on a field, or on two fields.
    DuplicateFromOnVariant,
    /// `#[source]` or `#[from]` on a variant without fields.
    SourceWithoutFields,
    /// A `#[from]` variant that is not a single-field tuple variant.
    FromNeedsTupleField,
}

/// What a field's attributes say: whether it is `#[from]` and whether it
/// is `#[source]`, scanning its attributes in order.
pub open spec fn scan_attrs(attrs: Seq<AttrMark>, n: nat) -> Result<(bool, bool), MarkError>
    decreases n,
{
    if n == 0 || n > attrs.len() {
        Ok((false, false))
    } else {
        match scan_attrs(attrs, (n - 1) as nat) {
            Err(e) => Err(e),
            Ok((from, source)) => {
                let a = attrs[n - 1];
                match a.kind {
                    AttrKind::From => if from {
                        Err(MarkError::DuplicateFrom)
                    } else if !a.path_only {
                        Err(MarkError::FromWithArguments)
                    } else {
                        Ok((true, source))
                    },
                    AttrKind::Source => if source {
                        Err(MarkError::DuplicateSource)
                    } else if !a.path_only {
                        Err(MarkError::SourceWithArguments)
                    } else {
                        Ok((from, true))
                    },
                    _ => Ok((from, source)),
                }
            },
        }
    }
}

/// A field's markers, by index.
#[derive(Debug, Clone, Copy, PartialEq, Eq, Structural)]
pub struct FieldRef {
    pub index: usize,
    pub has_from: bool,
    pub has_source: bool,
}

/// The markers of every field, or the first error met.
pub open spec fn scan_fields(fields: Seq<Vec<AttrMark>>, n: nat) -> Result<Seq<FieldRef>, MarkError>
    decreases n,
{
    if n == 0 || n > fields.len() {
        Ok(Seq::empty())
    } else {
        match scan_fields(fields, (n - 1) as nat) {
            Err(e) => Err(e),
            Ok(refs) => match scan_attrs(fields[n - 1]@, fields[n - 1]@.len()) {
                Err(e) => Err(e),
                Ok((from, source)) => Ok(refs.push(FieldRef { index: (n - 1) as usize, has_from: from, has_source: source })),
            },
        }
    }
}

fn scan_field_attrs(attrs: &Vec<AttrMark>) -> (r: Result<(bool, bool), MarkError>)
    ensures
        r == scan_attrs(attrs@, attrs@.len()),
{
    let mut from = false;
    let mut source = false;
    let mut i: usize = 0;
    while i < attrs.len()
        invariant
            i <= attrs@.len(),
            scan_attrs(attrs@, i as nat) == Ok::<(bool, bool), MarkError>((from, source)),
        decreases attrs@.len() - i,
    {
        let a = attrs[i];
        match a.kind {
            AttrKind::From => {
                if from {
                    proof { lemma_scan_attrs_err(attrs@, (i + 1) as nat, attrs@.len()); }
                    return Err(MarkError::DuplicateFrom);
                }
                if !a.path_only {
                    proof { lemma_scan_attrs_err(attrs@, (i + 1) as nat, attrs@.len()); }
                    return Err(MarkError::FromWithArguments);
                }
                from = true;
            },
            AttrKind::Source => {
                if source {
                    proof { lemma_scan_attrs_err(attrs@, (i + 1) as nat, attrs@.len()); }
                    return Err(MarkError::DuplicateSource);
                }
                if !a.path_only {
                    proof { lemma_scan_attrs_err(attrs@, (i + 1) as nat, attrs@.len()); }
                    return Err(MarkError::SourceWithArguments);
                }
                source = true;
            },
            _ => {},
        }
        i += 1;
    }
    Ok((from, source))
}

proof fn lemma_scan_attrs_err(attrs: Seq<AttrMark>, k: nat, m: nat)
    requires
        scan_attrs(attrs, k) is Err,
        k <= m <= attrs.len(),
    ensures
        scan_attrs(attrs, m) == scan_attrs(attrs, k),
    decreases m - k,
{
    if k < m {
        lemma_scan_attrs_err(attrs, k, (m - 1) as nat);
    }
}

proof fn lemma_scan_fields_err(fields: Seq<Vec<AttrMark>>, k: nat, m: nat)
    requires
        scan_fields(fields, k) is Err,
        k <= m <= fields.len(),
    ensures
        scan_fields(fields, m) == scan_fields(fields, k),
    decreases m - k,
{
    if k < m {
        lemma_scan_fields_err(fields, k, (m - 1) as nat);
    }
}

/// Reads the `#[from]` and `#[source]` markers of each field.
pub fn scan_field_refs(fields: &Vec<Vec<AttrMark>>) -> (r: Result<Vec<FieldRef>, MarkError>)
    ensures
        match r {
            Ok(refs) => scan_fields(fields@, fields@.len()) == Ok::<Seq<FieldRef>, MarkError>(refs@),
            Err(e) => scan_fields(fields@, fields@.len()) == Err::<Seq<FieldRef>, MarkError>(e),
        },
{
    let mut refs: Vec<FieldRef> = Vec::new();
    let mut i: usize = 0;
    while i < fields.len()
        invariant
            i <= fields@.len(),
            scan_fields(fields@, i as nat) == Ok::<Seq<FieldRef>, MarkError>(refs@),
        decreases fields@.len() - i,
    {
        match scan_field_attrs(&fields[i]) {
            Ok((from, source)) => {
                refs.push(FieldRef { index: i, has_from: from, has_source: source });
            },
            Err(e) => {
                proof { lemma_scan_fields_err(fields@, (i + 1) as nat, fields@.len()); }
                return Err(e);
            },
        }
        i += 1;
    }
    Ok(refs)
}

/// Whether a field is marked `#[source]` or `#[from]`.
pub open spec fn is_marked(f: FieldRef) -> bool {
    f.has_source || f.has_from
}

/// How many of the first `n` fields are marked.
pub open spec fn marked_count(refs: Seq<FieldRef>, n: nat) -> nat
    decreases n,
{
    if n == 0 || n > refs.len() {
        0
    } else {
        marked_count(refs, (n - 1) as nat) + (if is_marked(refs[n - 1]) { 1nat } else { 0nat })
    }
}

/// The index of the source field: the one field marked `#[source]` or
/// `#[from]`, if any; a `#[from]` field must be the only field.
pub open spec fn source_index_of(refs: Seq<FieldRef>) -> Result<Option<usize>, MarkError> {
    let c = marked_count(refs, refs.len());
    if c > 1 {
        Err(MarkError::MultipleSourceFields)
    } else if c == 1 {
        let j = choose|j: int| 0 <= j < refs.len() && is_marked(#[trigger] refs[j]);
        if refs[j].has_from && refs.len() != 1 {
            Err(MarkError::FromNeedsSingleField)
        } else {
            Ok(Some(refs[j].index))
        }
    } else {
        Ok(None)
    }
}

proof fn lemma_marked_count_mono(refs: Seq<FieldRef>, k: nat, m: nat)
    requires
        k <= m <= refs.len(),
    ensures
        marked_count(refs, k) <= marked_count(refs, m),
    decreases m - k,
{
    if k < m {
        lemma_marked_count_mono(refs, k, (m - 1) as nat);
    }
}

proof fn lemma_marked_count_zero(refs: Seq<FieldRef>, n: nat)
    requires
        n <= refs.len(),
        forall|j: int| 0 <= j < n ==> !is_marked(#[trigger] refs[j]),
    ensures
        marked_count(refs, n) == 0,
    decreases n,
{
    if n > 0 {
        lemma_marked_count_zero(refs, (n - 1) as nat);
    }
}

/// Finds the source field of a variant or struct.
pub fn resolved_source_index(fields: &Vec<Vec<AttrMark>>) -> (r: Result<Option<usize>, MarkError>)
    ensures
        match scan_fields(fields@, fields@.len()) {
            Err(e) => r == Err::<Option<usize>, MarkError>(e),
            Ok(refs) => r == source_index_of(refs),
        },
{
    let refs = match scan_field_refs(fields) {
        Ok(refs) => refs,
        Err(e) => {
            return Err(e);
        },
    };
    let mut found: Option<usize> = None;
    let mut i: usize = 0;
    while i < refs.len()
        invariant
            scan_fields(fields@, fields@.len()) == Ok::<Seq<FieldRef>, MarkError>(refs@),
            i <= refs@.len(),
            found is None ==> marked_count(refs@, i as nat) == 0 && forall|j: int| 0 <= j < i ==> !is_marked(#[trigger] refs@[j]),
            found matches Some(k) ==> k < i && is_marked(refs@[k as int]) && marked_count(refs@, i as nat) == 1
                && forall|j: int| 0 <= j < i && j != k ==> !is_marked(#[trigger] refs@[j]),
        decreases refs@.len() - i,
    {
        let f = refs[i];
        if f.has_source || f.has_from {
            if found.is_some() {
                proof {
                    assert(marked_count(refs@, i as nat + 1) == 2);
                    lemma_marked_count_mono(refs@, i as nat + 1, refs@.len());
                }
                return Err(MarkError::MultipleSourceFields);
            }
            found = Some(i);
        }
        i += 1;
    }
    match found {
        Some(k) => {
            proof {
                let j = choose|j: int| 0 <= j < refs@.len() && is_marked(#[trigger] refs@[j]);
                assert(j == k as int);
            }
            if refs[k].has_from && refs.len() != 1 {
                return Err(MarkError::FromNeedsSingleField);
            }
            Ok(Some(refs[k].index))
        },
        None => Ok(None),
    }
}

/// Whether an attribute list marks `#[from]` (once, without arguments).
pub open spec fn has_from_spec(attrs: Seq<AttrMark>, n: nat) -> Result<bool, MarkError>
    decreases n,
{
    if n == 0 || n > attrs.len() {
        Ok(false)
    } else {
        match has_from_spec(attrs, (n - 1) as nat) {
            Err(e) => Err(e),
            Ok(has) => if attrs[n - 1].kind == AttrKind::From {
                if has {
                    Err(MarkError::DuplicateFrom)
                } else if !attrs[n - 1].path_only {
                    Err(MarkError::FromWithArguments)
                } else {
                    Ok(true)
                }
            } else {
                Ok(has)
            },
        }
    }
}

proof fn lemma_has_from_err(attrs: Seq<AttrMark>, k: nat, m: nat)
    requires
        has_from_spec(attrs, k) is Err,
        k <= m <= attrs.len(),
    ensures
        has_from_spec(attrs, m) == has_from_spec(attrs, k),
    decreases m - k,
{
    if k < m {
        lemma_has_from_err(attrs, k, (m - 1) as nat);
    }
}

/// Whether an attribute list carries `#[from]`.
pub fn has_from_attr(attrs: &Vec<AttrMark>) -> (r: Result<bool, MarkError>)
    ensures
        r == has_from_spec(attrs@, attrs@.len()),
{
    let mut has = false;
    let mut i: usize = 0;
    while i < attrs.len()
        invariant
            i <= attrs@.len(),
            has_from_spec(attrs@, i as nat) == Ok::<bool, MarkError>(has),
        decreases attrs@.len() - i,
    {
        let a = attrs[i];
        if a.kind == AttrKind::From {
            if has {
                proof { lemma_has_from_err(attrs@, (i + 1) as nat, attrs@.len()); }
                return Err(MarkError::DuplicateFrom);
            }
            if !a.path_only {
                proof { lemma_has_from_err(attrs@, (i + 1) as nat, attrs@.len()); }
                return Err(MarkError::FromWithArguments);
            }
            has = true;
        }
        i += 1;
    }
    Ok(has)
}

/// How many of the first `n` field attribute lists carry `#[from]`, or the
/// first error.
pub open spec fn from_count(fields: Seq<Vec<AttrMark>>, n: nat) -> Result<nat, MarkError>
    decreases n,
{
    if n == 0 || n > fields.len() {
        Ok(0)
    } else {
        match from_count(fields, (n - 1) as nat) {
            Err(e) => Err(e),
            Ok(c) => match has_from_spec(fields[n - 1]@, fields[n - 1]@.len()) {
                Err(e) => Err(e),
                Ok(h) => Ok(if h { c + 1 } else { c }),
            },
        }
    }
}

proof fn lemma_from_count_err(fields: Seq<Vec<AttrMark>>, k: nat, m: nat)
    requires
        from_count(fields, k) is Err,
        k <= m <= fields.len(),
    ensures
        from_count(fields, m) == from_count(fields, k),
    decreases m - k,
{
    if k < m {
        lemma_from_count_err(fields, k, (m - 1) as nat);
    }
}

/// Whether a variant converts from its field: `#[from]` on the variant or
/// on one field, never on more than one of them.
pub open spec fn is_from_variant_spec(variant_attrs: Seq<AttrMark>, fields: Seq<Vec<AttrMark>>) -> Result<bool, MarkError> {
    match has_from_spec(variant_attrs, variant_attrs.len()) {
        Err(e) => Err(e),
        Ok(on_variant) => match from_count(fields, fields.len()) {
            Err(e) => Err(e),
            Ok(c) => {
                let total = (if on_variant { 1nat } else { 0nat }) + c;
                if total > 1 {
                    Err(MarkError::DuplicateFromOnVariant)
                } else {
                    Ok(total == 1)
                }
            },
        },
    }
}

/// Whether a variant converts from its field.
pub fn is_from_variant(variant_attrs: &Vec<AttrMark>, fields: &Vec<Vec<AttrMark>>) -> (r: Result<bool, MarkError>)
    ensures
        r == is_from_variant_spec(variant_attrs@, fields@),
{
    let on_variant = match has_from_attr(variant_attrs) {
        Ok(h) => h,
        Err(e) => {
            return Err(e);
        },
    };
    let mut count: usize = if on_variant { 1 } else { 0 };
    let mut i: usize = 0;
    while i < fields.len()
        invariant
            has_from_spec(variant_attrs@, variant_attrs@.len()) == Ok::<bool, MarkError>(on_variant),
            i <= fields@.len(),
            count <= 2,
            from_count(fields@, i as nat) matches Ok(c) && ({
                let total = (if on_variant { 1nat } else { 0nat }) + c;
                count == (if total > 2 { 2 } else { total })
            }),
        decreases fields@.len() - i,
    {
        match has_from_attr(&fields[i]) {
            Ok(h) => {
                if h && count < 2 {
                    count += 1;
                }
            },
            Err(e) => {
                proof { lemma_from_count_err(fields@, (i + 1) as nat, fields@.len()); }
                return Err(e);
            },
        }
        i += 1;
    }
    if count > 1 {
        return Err(MarkError::DuplicateFromOnVariant);
    }
    Ok(count == 1)
}

/// The shape of a variant's or struct's fields.
#[derive(Debug, Clone, PartialEq, Eq)]
pub enum FieldsShape {
    Unit,
    /// Named fields, by name.
    Named(Vec<String>),
    /// Tuple fields, by count.
    Unnamed(usize),
}

/// The number of fields of a shape.
pub open spec fn field_count(s: FieldsShape) -> nat {
    match s {
        FieldsShape::Unit => 0,
        FieldsShape::Named(n) => n@.len(),
        FieldsShape::Unnamed(k) => k as nat,
    }
}

/// The number of fields of a shape.
pub fn field_len(shape: &FieldsShape) -> (n: usize)
    ensures
        n == field_count(*shape),
{
    match shape {
        FieldsShape::Unit => 0,
        FieldsShape::Named(n) => n.len(),
        FieldsShape::Unnamed(k) => *k,
    }
}

/// `prefix` followed by the decimal digits of `i`.
pub open spec fn indexed_name(prefix: Seq<char>, i: nat) -> Seq<char> {
    prefix + decimal(i)
}

fn make_indexed_name(prefix: &str, i: usize) -> (s: String)
    ensures
        s@ == indexed_name(prefix@, i as nat),
{
    let mut s = String::new();
    push_str(&mut s, prefix);
    write_u64(&mut s, i as u64);
    s
}

/// `count` names made of `prefix` and an index.
pub fn indexed_names(prefix: &str, count: usize) -> (names: Vec<String>)
    ensures
        names@.len() == count,
        forall|i: int| 0 <= i < count ==> (#[trigger] names@[i])@ == indexed_name(prefix@, i as nat),
{
    let mut names: Vec<String> = Vec::new();
    let mut i: usize = 0;
    while i < count
        invariant
            i <= count,
            names@.len() == i,
            forall|j: int| 0 <= j < i ==> (#[trigger] names@[j])@ == indexed_name(prefix@, j as nat),
        decreases count - i,
    {
        names.push(make_indexed_name(prefix, i));
        i += 1;
    }
    names
}

/// The names that bind a shape's fields in a pattern: named fields by
/// their names, tuple fields as `f0`, `f1`, ...
pub open spec fn binding_names(s: FieldsShape) -> Seq<Seq<char>> {
    match s {
        FieldsShape::Unit => Seq::empty(),
        FieldsShape::Named(n) => n@.map_values(|x: String| x@),
        FieldsShape::Unnamed(k) => Seq::new(k as nat, |i: int| indexed_name("f"@, i as nat)),
    }
}

/// The names that a constructor takes a shape's fields as: named fields by
/// their names, tuple fields as `arg0`, `arg1`, ...
pub open spec fn constructor_param_names(s: FieldsShape) -> Seq<Seq<char>> {
    match s {
        FieldsShape::Unit => Seq::empty(),
        FieldsShape::Named(n) => n@.map_values(|x: String| x@),
        FieldsShape::Unnamed(k) => Seq::new(k as nat, |i: int| indexed_name("arg"@, i as nat)),
    }
}

/// The placeholder names that a display template may use: named fields by
/// their names, tuple fields by their index.
pub open spec fn placeholder_names(s: FieldsShape) -> Seq<Seq<char>> {
    match s {
        FieldsShape::Unit => Seq::empty(),
        FieldsShape::Named(n) => n@.map_values(|x: String| x@),
        FieldsShape::Unnamed(k) => Seq::new(k as nat, |i: int| decimal(i as nat)),
    }
}

fn copy_names(n: &Vec<String>) -> (r: Vec<String>)
    ensures
        r@.map_values(|x: String| x@) == n@.map_values(|x: String| x@),
{
    let mut r: Vec<String> = Vec::new();
    let mut i: usize = 0;
    while i < n.len()
        invariant
            i <= n@.len(),
            r@.map_values(|x: String| x@) == n@.subrange(0, i as int).map_values(|x: String| x@),
        decreases n@.len() - i,
    {
        let ghost r0 = r@;
        let x = n[i].clone();
        r.push(x);
        assert(r@ =~= r0.push(x));
        assert(n@.subrange(0, i as int + 1) =~= n@.subrange(0, i as int).push(n@[i as int]));
        assert(r@.map_values(|x: String| x@) =~= r0.map_values(|x: String| x@).push(x@));
        assert(n@.subrange(0, i as int + 1).map_values(|x: String| x@) =~= n@.subrange(0, i as int).map_values(|x: String| x@).push(n@[i as int]@));
        assert(r@.map_values(|x: String| x@) =~= n@.subrange(0, i as int + 1).map_values(|x: String| x@));
        i += 1;
    }
    assert(n@.subrange(0, n@.len() as int) =~= n@);
    r
}

fn shape_names(shape: &FieldsShape, prefix: &str) -> (r: Vec<String>)
    ensures
        r@.map_values(|x: String| x@) == match *shape {
            FieldsShape::Unit => Seq::<Seq<char>>::empty(),
            FieldsShape::Named(n) => n@.map_values(|x: String| x@),
            FieldsShape::Unnamed(k) => Seq::new(k as nat, |i: int| indexed_name(prefix@, i as nat)),
        },
{
    match shape {
        FieldsShape::Unit => {
            let r: Vec<String> = Vec::new();
            assert(r@.map_values(|x: String| x@) =~= Seq::<Seq<char>>::empty());
            r
        },
        FieldsShape::Named(n) => copy_names(n),
        FieldsShape::Unnamed(k) => {
            let r = indexed_names(prefix, *k);
            assert(r@.map_values(|x: String| x@) =~= Seq::new(*k as nat, |i: int| indexed_name(prefix@, i as nat)));
            r
        },
    }
}

/// The names that bind a shape's fields in a match pattern.
pub fn make_bindings(shape: &FieldsShape) -> (r: Vec<String>)
    ensures
        r@.map_values(|x: String| x@) == binding_names(*shape),
{
    shape_names(shape, "f")
}

/// The parameter names of a generated constructor.
pub fn expand_constructor_fields(shape: &FieldsShape) -> (r: Vec<String>)
    ensures
        r@.map_values(|x: String| x@) == constructor_param_names(*shape),
{
    shape_names(shape, "arg")
}

/// The names a display template may use for a shape's fields.
pub fn replacement_names(shape: &FieldsShape) -> (r: Vec<String>)
    ensures
        r@.map_values(|x: String| x@) == placeholder_names(*shape),
{
    let r = shape_names(shape, "");
    proof {
        match *shape {
            FieldsShape::Unnamed(k) => {
                assert(Seq::new(k as nat, |i: int| indexed_name(""@, i as nat)) =~= Seq::new(k as nat, |i: int| decimal(i as nat))) by {
                    assert forall|i: int| 0 <= i < k implies #[trigger] indexed_name(""@, i as nat) == decimal(i as nat) by {
                        assert(""@ + decimal(i as nat) =~= decimal(i as nat)) by {
                            reveal_strlit("");
                        }
                    }
                }
            },
            _ => {},
        }
    }
    r
}

/// Checks where a variant's source lies: a variant without fields has
/// none, or fails when one of its (absent) fields is said to be one.
pub fn variant_source_index(shape: &FieldsShape, fields: &Vec<Vec<AttrMark>>) -> (r: Result<Option<usize>, MarkError>)
    ensures
        match scan_fields(fields@, fields@.len()) {
            Err(e) => r == Err::<Option<usize>, MarkError>(e),
            Ok(refs) => match source_index_of(refs) {
                Err(e) => r == Err::<Option<usize>, MarkError>(e),
                Ok(idx) => if *shape == FieldsShape::Unit && idx is Some {
                    r == Err::<Option<usize>, MarkError>(MarkError::SourceWithoutFields)
                } else {
                    r == Ok::<Option<usize>, MarkError>(idx)
                },
            },
        },
{
    let idx = match resolved_source_index(fields) {
        Ok(idx) => idx,
        Err(e) => {
            return Err(e);
        },
    };
    match shape {
        FieldsShape::Unit => {
            if idx.is_some() {
                return Err(MarkError::SourceWithoutFields);
            }
            Ok(idx)
        },
        _ => Ok(idx),
    }
}

/// Checks that a `#[from]` variant has exactly one tuple field.
pub fn from_variant_source(shape: &FieldsShape) -> (r: Result<(), MarkError>)
    ensures
        r is Ok <==> *shape == FieldsShape::Unnamed(1),
        r matches Err(e) ==> e == MarkError::FromNeedsTupleField,
{
    match shape {
        FieldsShape::Unnamed(k) => {
            if *k == 1 {
                Ok(())
            } else {
                Err(MarkError::FromNeedsTupleField)
            }
        },
        _ => Err(MarkError::FromNeedsTupleField),
    }
}

} // verus!
