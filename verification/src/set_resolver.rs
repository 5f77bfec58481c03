//! Resolution of `set!` declarations: each set's variants are its inline
//! variants and the variants of the sets it references (with their generic
//! parameters substituted), deduplicated by name; its members are the
//! interned signatures of those variants.
//!
//! A variant is held as the token texts of its attribute-free declaration;
//! its signature is those tokens joined by single spaces.

use vstd::prelude::*;
use crate::bitset::{BitSet, SymbolTable};
use crate::text::str_eq;

verus! {

/// A generic parameter of a set declaration.
#[derive(Debug, Clone, PartialEq, Eq)]
pub enum GenericParam {
    /// A type parameter, by name.
    Type(String),
    /// A lifetime parameter, as written (`'a`).
    Lifetime(String),
    /// A const parameter.
    Const,
}

/// A generic argument of a set reference.
#[derive(Debug, Clone, PartialEq, Eq)]
pub enum GenericArg {
    /// A type, as its token texts.
    Type(Vec<String>),
    /// A lifetime, as written.
    Lifetime(String),
    /// Any other argument (a const expression or a binding).
    Other,
}

/// A reference to another set inside a union expression.
#[derive(Debug, Clone, PartialEq, Eq)]
pub struct SetRef {
    pub name: String,
    pub args: Option<Vec<GenericArg>>,
}

/// A variant as the resolver sees it: its name and the token texts of its
/// declaration without attributes.
#[derive(Debug, Clone, PartialEq, Eq)]
pub struct VariantShape {
    pub name: String,
    pub tokens: Vec<String>,
}

/// One term of a union expression.
#[derive(Debug, Clone, PartialEq, Eq)]
pub enum UnionTerm {
    SetRef(SetRef),
    Inline(Vec<VariantShape>),
}

/// A `set!` declaration.
#[derive(Debug, Clone, PartialEq, Eq)]
pub struct SetDecl {
    pub name: String,
    pub generics: Vec<GenericParam>,
    pub terms: Vec<UnionTerm>,
}

/// Token texts as character sequences.
pub open spec fn tokens_view(t: Seq<String>) -> Seq<Seq<char>> {
    t.map_values(|s: String| s@)
}

/// Tokens joined by single spaces.
pub open spec fn join_tokens(t: Seq<Seq<char>>) -> Seq<char>
    decreases t.len(),
{
    if t.len() == 0 {
        Seq::empty()
    } else if t.len() == 1 {
        t[0]
    } else {
        join_tokens(t.drop_last()) + seq![' '] + t.last()
    }
}

/// The signature of a variant: its tokens joined by spaces.
pub open spec fn signature_of(v: VariantShape) -> Seq<char> {
    join_tokens(tokens_view(v.tokens@))
}

/// A type substitution: parameter names and the tokens that replace them.
pub type TypeMap = Vec<(String, Vec<String>)>;

/// A lifetime substitution: lifetimes and their replacements.
pub type LifetimeMap = Vec<(String, String)>;

/// Spec form of a type substitution.
pub open spec fn type_map_view(m: Seq<(String, Vec<String>)>) -> Seq<(Seq<char>, Seq<Seq<char>>)> {
    m.map_values(|e: (String, Vec<String>)| (e.0@, tokens_view(e.1@)))
}

/// Spec form of a lifetime substitution.
pub open spec fn lifetime_map_view(m: Seq<(String, String)>) -> Seq<(Seq<char>, Seq<char>)> {
    m.map_values(|e: (String, String)| (e.0@, e.1@))
}

/// The last entry of an association list whose key is `k` (later entries
/// replace earlier ones).
pub open spec fn last_key_index<V>(m: Seq<(Seq<char>, V)>, k: Seq<char>) -> Option<int>
    decreases m.len(),
{
    if m.len() == 0 {
        None
    } else if m.last().0 == k {
        Some(m.len() - 1)
    } else {
        last_key_index(m.drop_last(), k)
    }
}

/// Whether token `i` stands as a whole type path: not next to a `::`, and
/// not a field name followed by `:`.
pub open spec fn in_type_position(t: Seq<Seq<char>>, i: int) -> bool {
    &&& (i == 0 || t[i - 1] != "::"@)
    &&& (i + 1 >= t.len() || (t[i + 1] != "::"@ && t[i + 1] != ":"@))
}

/// What token `i` becomes under the substitution.
pub open spec fn replace_token(
    t: Seq<Seq<char>>,
    i: int,
    tm: Seq<(Seq<char>, Seq<Seq<char>>)>,
    lm: Seq<(Seq<char>, Seq<char>)>,
) -> Seq<Seq<char>> {
    match last_key_index(tm, t[i]) {
        Some(k) if in_type_position(t, i) => tm[k].1,
        _ => match last_key_index(lm, t[i]) {
            Some(k) => seq![lm[k].1],
            None => seq![t[i]],
        },
    }
}

/// The first `n` tokens after substitution.
pub open spec fn substitute_prefix(
    t: Seq<Seq<char>>,
    n: nat,
    tm: Seq<(Seq<char>, Seq<Seq<char>>)>,
    lm: Seq<(Seq<char>, Seq<char>)>,
) -> Seq<Seq<char>>
    decreases n,
{
    if n == 0 || n > t.len() {
        Seq::empty()
    } else {
        substitute_prefix(t, (n - 1) as nat, tm, lm) + replace_token(t, n - 1, tm, lm)
    }
}

/// All tokens after substitution.
pub open spec fn substitute(
    t: Seq<Seq<char>>,
    tm: Seq<(Seq<char>, Seq<Seq<char>>)>,
    lm: Seq<(Seq<char>, Seq<char>)>,
) -> Seq<Seq<char>> {
    substitute_prefix(t, t.len(), tm, lm)
}

proof fn lemma_last_key_none_prefix<V>(m: Seq<(Seq<char>, V)>, k: Seq<char>, n: int)
    requires
        0 <= n <= m.len(),
        forall|j: int| n <= j < m.len() ==> m[j].0 != k,
    ensures
        last_key_index(m, k) == last_key_index(m.subrange(0, n), k),
    decreases m.len() - n,
{
    if n < m.len() {
        assert(m.drop_last() =~= m.subrange(0, m.len() - 1));
        lemma_last_key_none_prefix(m.drop_last(), k, n);
        assert(m.drop_last().subrange(0, n) =~= m.subrange(0, n));
    } else {
        assert(m.subrange(0, n) =~= m);
    }
}

proof fn lemma_last_key_found<V>(m: Seq<(Seq<char>, V)>, k: Seq<char>, n: int)
    requires
        0 <= n < m.len(),
        m[n].0 == k,
        forall|j: int| n < j < m.len() ==> m[j].0 != k,
    ensures
        last_key_index(m, k) == Some(n),
{
    lemma_last_key_none_prefix(m, k, n + 1);
    assert(m.subrange(0, n + 1).last() == m[n]);
}

proof fn lemma_last_key_props<V>(m: Seq<(Seq<char>, V)>, k: Seq<char>)
    ensures
        last_key_index(m, k) matches Some(i) ==> 0 <= i < m.len() && m[i].0 == k,
    decreases m.len(),
{
    if m.len() > 0 && m.last().0 != k {
        lemma_last_key_props(m.drop_last(), k);
    }
}

/// Index of the last entry with key `k`.
fn find_type_param(m: &TypeMap, k: &str) -> (r: Option<usize>)
    ensures
        r matches Some(i) ==> i < m@.len() && Some(i as int) == last_key_index(type_map_view(m@), k@),
        r is None ==> last_key_index(type_map_view(m@), k@) is None,
{
    let ghost mv = type_map_view(m@);
    let mut i: usize = m.len();
    while i > 0
        invariant
            i <= m@.len(),
            mv == type_map_view(m@),
            forall|j: int| i <= j < m@.len() ==> mv[j].0 != k@,
        decreases i,
    {
        if str_eq(m[i - 1].0.as_str(), k) {
            proof {
                lemma_last_key_found(mv, k@, i - 1);
            }
            return Some(i - 1);
        }
        i -= 1;
    }
    proof {
        lemma_last_key_none_prefix(mv, k@, 0);
    }
    None
}

/// Index of the last entry with key `k`.
fn find_lifetime(m: &LifetimeMap, k: &str) -> (r: Option<usize>)
    ensures
        r matches Some(i) ==> i < m@.len() && Some(i as int) == last_key_index(lifetime_map_view(m@), k@),
        r is None ==> last_key_index(lifetime_map_view(m@), k@) is None,
{
    let ghost mv = lifetime_map_view(m@);
    let mut i: usize = m.len();
    while i > 0
        invariant
            i <= m@.len(),
            mv == lifetime_map_view(m@),
            forall|j: int| i <= j < m@.len() ==> mv[j].0 != k@,
        decreases i,
    {
        if str_eq(m[i - 1].0.as_str(), k) {
            proof {
                lemma_last_key_found(mv, k@, i - 1);
            }
            return Some(i - 1);
        }
        i -= 1;
    }
    proof {
        lemma_last_key_none_prefix(mv, k@, 0);
    }
    None
}

fn clone_tokens(t: &Vec<String>) -> (r: Vec<String>)
    ensures
        tokens_view(r@) == tokens_view(t@),
{
    let mut r: Vec<String> = Vec::new();
    let mut i: usize = 0;
    while i < t.len()
        invariant
            i <= t@.len(),
            tokens_view(r@) == tokens_view(t@.subrange(0, i as int)),
        decreases t@.len() - i,
    {
        r.push(t[i].clone());
        assert(tokens_view(t@.subrange(0, i as int + 1)) =~= tokens_view(t@.subrange(0, i as int)).push(t@[i as int]@));
        assert(tokens_view(r@) =~= tokens_view(t@.subrange(0, i as int)).push(t@[i as int]@));
        i += 1;
    }
    assert(t@.subrange(0, t@.len() as int) =~= t@);
    r
}

/// Applies a generic substitution to the token texts of a declaration.
pub fn substitute_tokens(t: &Vec<String>, tm: &TypeMap, lm: &LifetimeMap) -> (r: Vec<String>)
    ensures
        tokens_view(r@) == substitute(tokens_view(t@), type_map_view(tm@), lifetime_map_view(lm@)),
{
    let ghost tv = tokens_view(t@);
    let ghost tmv = type_map_view(tm@);
    let ghost lmv = lifetime_map_view(lm@);
    let mut out: Vec<String> = Vec::new();
    let mut i: usize = 0;
    while i < t.len()
        invariant
            i <= t@.len(),
            tv == tokens_view(t@),
            tmv == type_map_view(tm@),
            lmv == lifetime_map_view(lm@),
            tokens_view(out@) == substitute_prefix(tv, i as nat, tmv, lmv),
        decreases t@.len() - i,
    {
        let tok = t[i].as_str();
        let type_pos = (i == 0 || !str_eq(t[i - 1].as_str(), "::"))
            && (i + 1 >= t.len() || (!str_eq(t[i + 1].as_str(), "::") && !str_eq(t[i + 1].as_str(), ":")));
        assert(type_pos == in_type_position(tv, i as int));
        let ghost before = tokens_view(out@);
        let found = find_type_param(tm, tok);
        proof {
            lemma_last_key_props(tmv, tv[i as int]);
            lemma_last_key_props(lmv, tv[i as int]);
        }
        match found {
            Some(k) if type_pos => {
                let rep = clone_tokens(&tm[k].1);
                let mut j: usize = 0;
                while j < rep.len()
                    invariant
                        j <= rep@.len(),
                        tokens_view(out@) == before + tokens_view(rep@).subrange(0, j as int),
                    decreases rep@.len() - j,
                {
                    let ghost o = out@;
                    out.push(rep[j].clone());
                    assert(tokens_view(out@) =~= tokens_view(o).push(rep@[j as int]@));
                    assert(tokens_view(rep@).subrange(0, j as int + 1) =~= tokens_view(rep@).subrange(0, j as int).push(rep@[j as int]@));
                    assert(tokens_view(out@) =~= before + tokens_view(rep@).subrange(0, j as int + 1));
                    j += 1;
                }
                assert(tokens_view(rep@).subrange(0, rep@.len() as int) =~= tokens_view(rep@));
                assert(tmv[k as int].1 == tokens_view(tm@[k as int].1@));
            },
            _ => {
                match find_lifetime(lm, tok) {
                    Some(k) => {
                        out.push(lm[k].1.clone());
                        assert(tokens_view(out@) =~= before + seq![lmv[k as int].1]);
                    },
                    None => {
                        out.push(t[i].clone());
                        assert(tokens_view(out@) =~= before + seq![tv[i as int]]);
                    },
                }
            },
        }
        assert(substitute_prefix(tv, (i + 1) as nat, tmv, lmv) == substitute_prefix(tv, i as nat, tmv, lmv) + replace_token(tv, i as int, tmv, lmv));
        i += 1;
    }
    out
}

/// Joins tokens with single spaces.
pub fn join_token_texts(t: &Vec<String>) -> (s: String)
    ensures
        s@ == join_tokens(tokens_view(t@)),
{
    let mut s = String::new();
    let mut i: usize = 0;
    while i < t.len()
        invariant
            i <= t@.len(),
            s@ == join_tokens(tokens_view(t@.subrange(0, i as int))),
        decreases t@.len() - i,
    {
        let ghost prev = tokens_view(t@.subrange(0, i as int));
        let ghost next = tokens_view(t@.subrange(0, i as int + 1));
        assert(next.drop_last() =~= prev);
        if i > 0 {
            crate::json::push_char(&mut s, ' ');
        }
        crate::json::push_str(&mut s, t[i].as_str());
        assert(s@ =~= join_tokens(next));
        i += 1;
    }
    assert(t@.subrange(0, t@.len() as int) =~= t@);
    s
}

/// The substitution that a set reference applies to the variants of the
/// set it names, after the first `p` generic parameters: each type or
/// lifetime parameter takes the next argument, and keeps it when it is of
/// its own kind; const parameters take none. Without arguments each type
/// and lifetime parameter maps to itself.
pub open spec fn ref_maps(params: Seq<GenericParam>, args: Option<Seq<GenericArg>>, p: nat)
    -> (Seq<(Seq<char>, Seq<Seq<char>>)>, Seq<(Seq<char>, Seq<char>)>, nat)
    decreases p,
{
    if p == 0 || p > params.len() {
        (Seq::empty(), Seq::empty(), 0)
    } else {
        let prev = ref_maps(params, args, (p - 1) as nat);
        let (tm, lm, c) = prev;
        match args {
            None => match params[p - 1] {
                GenericParam::Type(n) => (tm.push((n@, seq![n@])), lm, c),
                GenericParam::Lifetime(l) => (tm, lm.push((l@, l@)), c),
                GenericParam::Const => (tm, lm, c),
            },
            Some(a) => match params[p - 1] {
                GenericParam::Type(n) => if c < a.len() {
                    match a[c as int] {
                        GenericArg::Type(t) => (tm.push((n@, tokens_view(t@))), lm, c + 1),
                        _ => (tm, lm, c + 1),
                    }
                } else {
                    (tm, lm, c)
                },
                GenericParam::Lifetime(l) => if c < a.len() {
                    match a[c as int] {
                        GenericArg::Lifetime(x) => (tm, lm.push((l@, x@)), c + 1),
                        _ => (tm, lm, c + 1),
                    }
                } else {
                    (tm, lm, c)
                },
                GenericParam::Const => (tm, lm, c),
            },
        }
    }
}

/// Spec form of optional generic arguments.
pub open spec fn args_seq(args: Option<Vec<GenericArg>>) -> Option<Seq<GenericArg>> {
    match args {
        Some(v) => Some(v@),
        None => None,
    }
}

fn clone_string(s: &String) -> (r: String)
    ensures
        r@ == s@,
{
    s.clone()
}

/// Builds the substitution that a reference with `args` applies to a set
/// with generic parameters `params`.
pub fn build_ref_maps(params: &Vec<GenericParam>, args: &Option<Vec<GenericArg>>) -> (r: (TypeMap, LifetimeMap))
    ensures
        type_map_view(r.0@) == ref_maps(params@, args_seq(*args), params@.len()).0,
        lifetime_map_view(r.1@) == ref_maps(params@, args_seq(*args), params@.len()).1,
{
    let mut tm: TypeMap = Vec::new();
    let mut lm: LifetimeMap = Vec::new();
    let mut c: usize = 0;
    let mut p: usize = 0;
    while p < params.len()
        invariant
            p <= params@.len(),
            type_map_view(tm@) == ref_maps(params@, args_seq(*args), p as nat).0,
            lifetime_map_view(lm@) == ref_maps(params@, args_seq(*args), p as nat).1,
            c == ref_maps(params@, args_seq(*args), p as nat).2,
            c <= p,
        decreases params@.len() - p,
    {
        let ghost tm0 = tm@;
        let ghost lm0 = lm@;
        match args {
            None => match &params[p] {
                GenericParam::Type(n) => {
                    let mut rep: Vec<String> = Vec::new();
                    rep.push(clone_string(n));
                    assert(tokens_view(rep@) =~= seq![n@]);
                    tm.push((clone_string(n), rep));
                    assert(type_map_view(tm@) =~= type_map_view(tm0).push((n@, seq![n@])));
                },
                GenericParam::Lifetime(l) => {
                    lm.push((clone_string(l), clone_string(l)));
                    assert(lifetime_map_view(lm@) =~= lifetime_map_view(lm0).push((l@, l@)));
                },
                GenericParam::Const => {},
            },
            Some(a) => match &params[p] {
                GenericParam::Type(n) => {
                    if c < a.len() {
                        match &a[c] {
                            GenericArg::Type(t) => {
                                let rep = clone_tokens(t);
                                tm.push((clone_string(n), rep));
                                assert(type_map_view(tm@) =~= type_map_view(tm0).push((n@, tokens_view(t@))));
                            },
                            _ => {},
                        }
                        c += 1;
                    }
                },
                GenericParam::Lifetime(l) => {
                    if c < a.len() {
                        match &a[c] {
                            GenericArg::Lifetime(x) => {
                                lm.push((clone_string(l), clone_string(x)));
                                assert(lifetime_map_view(lm@) =~= lifetime_map_view(lm0).push((l@, x@)));
                            },
                            _ => {},
                        }
                        c += 1;
                    }
                },
                GenericParam::Const => {},
            },
        }
        p += 1;
    }
    (tm, lm)
}

/// A variant of a resolved set.
#[derive(Debug)]
pub struct ResolvedVariant {
    /// Index of the variant's signature in the symbol table.
    pub symbol: usize,
    pub name: String,
    pub signature: String,
    pub variant: VariantShape,
}

/// A resolved set: its variants in order of first appearance, the symbols
/// of their signatures, and the set references it was built from (its
/// generic parameters stay with its declaration).
#[derive(Debug)]
pub struct ResolvedSet {
    pub name: String,
    pub variants: Vec<ResolvedVariant>,
    pub members: BitSet,
    pub set_refs: Vec<SetRef>,
}

/// Why a set could not be resolved.
#[derive(Debug, Clone, PartialEq, Eq)]
pub enum ResolveError {
    /// A set is declared more than once.
    DuplicateSet(String),
    /// A set depends on itself; the chain of names, ending in the repeated one.
    Cycle(Vec<String>),
    /// A reference names no declared set.
    UndefinedSet(String),
    /// Two variants share a name but not a field shape.
    ShapeConflict(String),
}

/// A variant as name and tokens.
pub type Candidate = (Seq<char>, Seq<Seq<char>>);

/// The name and tokens of a variant.
pub open spec fn shape_candidate(v: VariantShape) -> Candidate {
    (v.name@, tokens_view(v.tokens@))
}

/// The names and tokens of resolved variants.
pub open spec fn resolved_candidates(vs: Seq<ResolvedVariant>) -> Seq<Candidate> {
    vs.map_values(|v: ResolvedVariant| shape_candidate(v.variant))
}

/// Index of the first candidate named `name`.
pub open spec fn name_index(acc: Seq<Candidate>, name: Seq<char>) -> Option<int> {
    if exists|i: int| 0 <= i < acc.len() && (#[trigger] acc[i]).0 == name {
        Some(choose|i: int| 0 <= i < acc.len() && (#[trigger] acc[i]).0 == name)
    } else {
        None
    }
}

/// Adds a candidate: a new name is appended, a known name with the same
/// signature is dropped, a known name with another signature fails.
pub open spec fn push_candidate(acc: Seq<Candidate>, c: Candidate) -> Option<Seq<Candidate>> {
    match name_index(acc, c.0) {
        Some(i) => if join_tokens(acc[i].1) == join_tokens(c.1) {
            Some(acc)
        } else {
            None
        },
        None => Some(acc.push(c)),
    }
}

/// Adds candidates in order, failing at the first conflict.
pub open spec fn push_candidates(acc: Seq<Candidate>, cs: Seq<Candidate>) -> Option<Seq<Candidate>>
    decreases cs.len(),
{
    if cs.len() == 0 {
        Some(acc)
    } else {
        match push_candidates(acc, cs.drop_last()) {
            Some(a) => push_candidate(a, cs.last()),
            None => None,
        }
    }
}

/// Whether candidate names are pairwise distinct.
pub open spec fn distinct_names(acc: Seq<Candidate>) -> bool {
    forall|i: int, j: int| 0 <= i < j < acc.len() ==> acc[i].0 != acc[j].0
}

/// A resolved variant agrees with its shape and the symbol table.
pub open spec fn variant_ok(v: ResolvedVariant, symbols: Seq<Seq<char>>) -> bool {
    &&& v.name@ == v.variant.name@
    &&& v.signature@ == join_tokens(tokens_view(v.variant.tokens@))
    &&& v.symbol < symbols.len()
    &&& symbols[v.symbol as int] == v.signature@
}

/// The symbols of resolved variants.
pub open spec fn symbols_of(vs: Seq<ResolvedVariant>) -> Set<nat> {
    Set::new(|b: nat| exists|i: int| 0 <= i < vs.len() && (#[trigger] vs[i]).symbol == b)
}

/// Symbols are distinct keys.
pub open spec fn distinct_keys(symbols: Seq<Seq<char>>) -> bool {
    forall|i: int, j: int| 0 <= i < j < symbols.len() ==> symbols[i] != symbols[j]
}

/// The invariant of a set being built.
pub open spec fn building_ok(vs: Seq<ResolvedVariant>, members: Set<nat>, symbols: Seq<Seq<char>>) -> bool {
    &&& forall|i: int| 0 <= i < vs.len() ==> variant_ok(#[trigger] vs[i], symbols)
    &&& distinct_names(resolved_candidates(vs))
    &&& members == symbols_of(vs)
}

/// Adds `v` to the variants being built, as `push_candidate` says.
fn try_push_variant(
    variants: &mut Vec<ResolvedVariant>,
    members: &mut BitSet,
    v: ResolvedVariant,
    Ghost(symbols): Ghost<Seq<Seq<char>>>,
) -> (r: Result<(), ResolveError>)
    requires
        building_ok(old(variants)@, old(members).view(), symbols),
        variant_ok(v, symbols),
        distinct_keys(symbols),
        symbols.len() <= usize::MAX,
    ensures
        r is Ok <==> push_candidate(resolved_candidates(old(variants)@), shape_candidate(v.variant)) is Some,
        r is Ok ==> resolved_candidates(final(variants)@) == push_candidate(resolved_candidates(old(variants)@), shape_candidate(v.variant))->0,
        r is Ok ==> building_ok(final(variants)@, final(members).view(), symbols),
        r matches Err(e) ==> e == ResolveError::ShapeConflict(v.name),
{
    let ghost old_vs = variants@;
    let ghost acc = resolved_candidates(old_vs);
    let ghost c = shape_candidate(v.variant);
    let mut i: usize = 0;
    while i < variants.len()
        invariant
            variants@ == old_vs,
            acc == resolved_candidates(old_vs),
            c == shape_candidate(v.variant),
            distinct_keys(symbols),
            i <= old_vs.len(),
            forall|j: int| 0 <= j < i ==> acc[j].0 != c.0,
            variant_ok(v, symbols),
            building_ok(old_vs, members.view(), symbols),
        decreases old_vs.len() - i,
    {
        assert(variant_ok(old_vs[i as int], symbols));
        if str_eq(variants[i].name.as_str(), v.name.as_str()) {
            assert(acc[i as int].0 == c.0);
            assert(name_index(acc, c.0) == Some(i as int)) by {
                let k = choose|k: int| 0 <= k < acc.len() && (#[trigger] acc[k]).0 == c.0;
                assert(k == i as int);
            }
            if str_eq(variants[i].signature.as_str(), v.signature.as_str()) {
                assert(v.symbol == variants@[i as int].symbol);
                let ghost m0 = members.view();
                members.insert(v.symbol);
                assert(members.view() =~= m0);
                return Ok(());
            } else {
                return Err(ResolveError::ShapeConflict(v.name));
            }
        }
        i += 1;
    }
    assert(name_index(acc, c.0) is None);
    let ghost m0 = members.view();
    members.insert(v.symbol);
    variants.push(v);
    proof {
        assert(resolved_candidates(variants@) =~= acc.push(c));
        assert(members.view() =~= symbols_of(variants@)) by {
            assert forall|b: nat| members.view().contains(b) implies symbols_of(variants@).contains(b) by {
                if b == v.symbol {
                    assert(variants@[old_vs.len() as int].symbol == b);
                } else {
                    let k = choose|k: int| 0 <= k < old_vs.len() && (#[trigger] old_vs[k]).symbol == b;
                    assert(variants@[k] == old_vs[k]);
                }
            }
            assert forall|b: nat| symbols_of(variants@).contains(b) implies members.view().contains(b) by {
                let k = choose|k: int| 0 <= k < variants@.len() && (#[trigger] variants@[k]).symbol == b;
                if k < old_vs.len() {
                    assert(variants@[k] == old_vs[k]);
                    assert(symbols_of(old_vs).contains(b));
                }
            }
        }
    }
    Ok(())
}

/// Index of the declaration named `name`.
pub open spec fn decl_index(decls: Seq<SetDecl>, name: Seq<char>) -> Option<int> {
    if exists|i: int| 0 <= i < decls.len() && (#[trigger] decls[i]).name@ == name {
        Some(choose|i: int| 0 <= i < decls.len() && (#[trigger] decls[i]).name@ == name)
    } else {
        None
    }
}

/// No two declarations share a name.
pub open spec fn decl_names_distinct(decls: Seq<SetDecl>) -> bool {
    forall|i: int, j: int| 0 <= i < j < decls.len() ==> decls[i].name@ != decls[j].name@
}

/// `b` is the reference `a` with a substitution applied to its arguments.
pub open spec fn ref_matches(a: SetRef, b: SetRef, tm: Seq<(Seq<char>, Seq<Seq<char>>)>, lm: Seq<(Seq<char>, Seq<char>)>) -> bool {
    &&& b.name@ == a.name@
    &&& (a.args is None <==> b.args is None)
    &&& (a.args matches Some(x) ==> (b.args matches Some(y) && y@.len() == x@.len()
        && forall|i: int| 0 <= i < x@.len() ==> substituted_arg_matches(#[trigger] x@[i], y@[i], tm, lm)))
}

/// How many references one term records: none for an inline block; for a
/// reference, itself and the references of the set it names.
pub open spec fn term_refs_len(t: UnionTerm, decls: Seq<SetDecl>, resolved: Seq<Option<ResolvedSet>>) -> nat {
    match t {
        UnionTerm::Inline(_) => 0,
        UnionTerm::SetRef(r) => match decl_index(decls, r.name@) {
            Some(k) => match resolved[k] {
                Some(rs) => 1 + rs.set_refs@.len(),
                None => 1,
            },
            None => 1,
        },
    }
}

/// The references a term records: a reference records itself as written,
/// then the references of the set it names with its own substitution
/// applied; an inline block records none.
pub open spec fn term_refs_ok(t: UnionTerm, decls: Seq<SetDecl>, resolved: Seq<Option<ResolvedSet>>, piece: Seq<SetRef>) -> bool {
    match t {
        UnionTerm::Inline(_) => piece.len() == 0,
        UnionTerm::SetRef(r) => match decl_index(decls, r.name@) {
            Some(k) => match resolved[k] {
                Some(rs) => {
                    let m = ref_maps(decls[k].generics@, args_seq(r.args), decls[k].generics@.len());
                    &&& piece.len() == 1 + rs.set_refs@.len()
                    &&& ref_matches(r, piece[0], Seq::empty(), Seq::empty())
                    &&& forall|q: int| 0 <= q < rs.set_refs@.len() ==> ref_matches(#[trigger] rs.set_refs@[q], piece[1 + q], m.0, m.1)
                },
                None => false,
            },
            None => false,
        },
    }
}

/// How many references the first `n` terms record.
pub open spec fn terms_refs_len(ts: Seq<UnionTerm>, n: nat, decls: Seq<SetDecl>, resolved: Seq<Option<ResolvedSet>>) -> nat
    decreases n,
{
    if n == 0 || n > ts.len() {
        0
    } else {
        terms_refs_len(ts, (n - 1) as nat, decls, resolved) + term_refs_len(ts[n - 1], decls, resolved)
    }
}

/// `out` lists the references that the first `n` terms record, in order.
pub open spec fn terms_refs_ok(ts: Seq<UnionTerm>, n: nat, decls: Seq<SetDecl>, resolved: Seq<Option<ResolvedSet>>, out: Seq<SetRef>) -> bool
    decreases n,
{
    if n == 0 || n > ts.len() {
        out.len() == 0
    } else {
        let before = terms_refs_len(ts, (n - 1) as nat, decls, resolved);
        &&& out.len() == terms_refs_len(ts, n, decls, resolved)
        &&& terms_refs_ok(ts, (n - 1) as nat, decls, resolved, out.take(before as int))
        &&& term_refs_ok(ts[n - 1], decls, resolved, out.skip(before as int))
    }
}

/// The candidates that one union term contributes, given the sets resolved
/// so far: an inline block its own variants, a reference the variants of
/// the set it names with the reference's substitution applied.
pub open spec fn term_candidates(t: UnionTerm, decls: Seq<SetDecl>, resolved: Seq<Option<ResolvedSet>>) -> Seq<Candidate> {
    match t {
        UnionTerm::Inline(vs) => vs@.map_values(|v: VariantShape| shape_candidate(v)),
        UnionTerm::SetRef(r) => match decl_index(decls, r.name@) {
            Some(k) => match resolved[k] {
                Some(rs) => {
                    let m = ref_maps(decls[k].generics@, args_seq(r.args), decls[k].generics@.len());
                    resolved_candidates(rs.variants@).map_values(|c: Candidate| (c.0, substitute(c.1, m.0, m.1)))
                },
                None => Seq::empty(),
            },
            None => Seq::empty(),
        },
    }
}

/// The candidates of the first `n` terms, in order.
pub open spec fn terms_candidates(ts: Seq<UnionTerm>, n: nat, decls: Seq<SetDecl>, resolved: Seq<Option<ResolvedSet>>) -> Seq<Candidate>
    decreases n,
{
    if n == 0 || n > ts.len() {
        Seq::empty()
    } else {
        terms_candidates(ts, (n - 1) as nat, decls, resolved) + term_candidates(ts[n - 1], decls, resolved)
    }
}

/// Whether the sets that the first `n` terms reference are all resolved.
pub open spec fn refs_resolved(ts: Seq<UnionTerm>, n: nat, decls: Seq<SetDecl>, resolved: Seq<Option<ResolvedSet>>) -> bool {
    forall|j: int| 0 <= j < n && j < ts.len() ==> match #[trigger] ts[j] {
        UnionTerm::SetRef(r) => decl_index(decls, r.name@) matches Some(k) && resolved[k] is Some,
        UnionTerm::Inline(_) => true,
    }
}

/// Whether the declaration named `a` references the set named `b`.
pub open spec fn references(decls: Seq<SetDecl>, a: Seq<char>, b: Seq<char>) -> bool {
    match decl_index(decls, a) {
        Some(i) => exists|j: int| 0 <= j < decls[i].terms@.len() && term_refers(#[trigger] decls[i].terms@[j], b),
        None => false,
    }
}

/// Whether a term is a reference to the set named `b`.
pub open spec fn term_refers(t: UnionTerm, b: Seq<char>) -> bool {
    match t {
        UnionTerm::SetRef(r) => r.name@ == b,
        UnionTerm::Inline(_) => false,
    }
}

/// A resolved entry agrees with its declaration: its variants are the
/// candidates of all its terms, merged, and its members their symbols.
pub open spec fn entry_ok(decls: Seq<SetDecl>, resolved: Seq<Option<ResolvedSet>>, i: int, symbols: Seq<Seq<char>>) -> bool {
    resolved[i] matches Some(rs) ==> {
        let ts = decls[i].terms@;
        &&& rs.name@ == decls[i].name@
        &&& refs_resolved(ts, ts.len(), decls, resolved)
        &&& push_candidates(Seq::empty(), terms_candidates(ts, ts.len(), decls, resolved)) == Some(resolved_candidates(rs.variants@))
        &&& terms_refs_ok(ts, ts.len(), decls, resolved, rs.set_refs@)
        &&& building_ok(rs.variants@, rs.members.view(), symbols)
    }
}

/// Every resolved entry agrees with its declaration.
pub open spec fn all_entries_ok(decls: Seq<SetDecl>, resolved: Seq<Option<ResolvedSet>>, symbols: Seq<Seq<char>>) -> bool {
    forall|i: int| 0 <= i < resolved.len() ==> #[trigger] entry_ok(decls, resolved, i, symbols)
}

/// `b` keeps every entry of `a` and may fill more.
pub open spec fn grows(a: Seq<Option<ResolvedSet>>, b: Seq<Option<ResolvedSet>>) -> bool {
    &&& b.len() == a.len()
    &&& forall|i: int| 0 <= i < a.len() && a[i] is Some ==> #[trigger] b[i] == a[i]
}

/// `b` extends the symbol sequence `a`.
pub open spec fn extends(a: Seq<Seq<char>>, b: Seq<Seq<char>>) -> bool {
    a.len() <= b.len() && forall|i: int| 0 <= i < a.len() ==> #[trigger] b[i] == a[i]
}

/// The names of declarations at the given indices.
pub open spec fn stack_names(decls: Seq<SetDecl>, stack: Seq<usize>) -> Seq<Seq<char>> {
    stack.map_values(|k: usize| decls[k as int].name@)
}

/// The stack of sets being resolved: distinct declarations, none resolved
/// yet, each referencing the next.
pub open spec fn stack_ok(decls: Seq<SetDecl>, resolved: Seq<Option<ResolvedSet>>, stack: Seq<usize>) -> bool {
    &&& stack.no_duplicates()
    &&& forall|j: int| 0 <= j < stack.len() ==> (#[trigger] stack[j]) < decls.len() && resolved[stack[j] as int] is None
    &&& forall|j: int| 0 <= j < stack.len() - 1 ==> references(decls, decls[stack[j] as int].name@, #[trigger] decls[stack[j + 1] as int].name@)
}

/// A chain of set names that closes on itself, each referencing the next.
pub open spec fn is_cycle(decls: Seq<SetDecl>, chain: Seq<Seq<char>>) -> bool {
    &&& chain.len() >= 2
    &&& exists|j: int| 0 <= j < chain.len() - 1 && chain[j] == chain.last()
    &&& forall|j: int| 0 <= j < chain.len() - 1 ==> references(decls, chain[j], #[trigger] chain[j + 1])
}

proof fn lemma_stack_bound(stack: Seq<usize>, n: nat)
    requires
        stack.no_duplicates(),
        forall|j: int| 0 <= j < stack.len() ==> (#[trigger] stack[j]) < n,
    ensures
        stack.len() <= n,
{
    let f = |x: usize| x as int;
    let t = stack.map_values(f);
    assert(vstd::relations::injective(f));
    stack.lemma_no_duplicates_injective(f);
    t.unique_seq_to_set();
    vstd::set_lib::lemma_int_range(0, n as int);
    assert(t.to_set().subset_of(vstd::set_lib::set_int_range(0, n as int))) by {
        assert forall|x: int| t.to_set().contains(x) implies vstd::set_lib::set_int_range(0, n as int).contains(x) by {
            let j = choose|j: int| 0 <= j < t.len() && t[j] == x;
            assert(stack[j] < n);
        }
    }
    vstd::set_lib::lemma_len_subset(t.to_set(), vstd::set_lib::set_int_range(0, n as int));
}

/// Index of the declaration named `name`.
fn find_decl(decls: &Vec<SetDecl>, name: &str) -> (r: Option<usize>)
    requires
        decl_names_distinct(decls@),
    ensures
        r matches Some(k) ==> decl_index(decls@, name@) == Some(k as int) && k < decls@.len(),
        r is None ==> decl_index(decls@, name@) is None,
{
    let mut i: usize = 0;
    while i < decls.len()
        invariant
            decl_names_distinct(decls@),
            i <= decls@.len(),
            forall|j: int| 0 <= j < i ==> decls@[j].name@ != name@,
        decreases decls@.len() - i,
    {
        if str_eq(decls[i].name.as_str(), name) {
            assert(decl_index(decls@, name@) == Some(i as int)) by {
                assert(decls@[i as int].name@ == name@);
                let k = choose|k: int| 0 <= k < decls@.len() && (#[trigger] decls@[k]).name@ == name@;
                assert(k == i as int);
            }
            return Some(i);
        }
        i += 1;
    }
    None
}

/// Interns the signature of a variant and records it.
fn make_variant(name: &String, tokens: Vec<String>, symbol_table: &mut SymbolTable) -> (v: ResolvedVariant)
    requires
        old(symbol_table).well_formed(),
    ensures
        final(symbol_table).well_formed(),
        extends(old(symbol_table).view(), final(symbol_table).view()),
        final(symbol_table).view().len() <= usize::MAX,
        variant_ok(v, final(symbol_table).view()),
        shape_candidate(v.variant) == (name@, tokens_view(tokens@)),
{
    let signature = join_token_texts(&tokens);
    let symbol = symbol_table.intern(clone_string(&signature));
    ResolvedVariant {
        symbol,
        name: clone_string(name),
        signature,
        variant: VariantShape { name: clone_string(name), tokens },
    }
}

proof fn lemma_push_candidates_append(acc: Seq<Candidate>, a: Seq<Candidate>, b: Seq<Candidate>)
    ensures
        push_candidates(acc, a + b) == (match push_candidates(acc, a) {
            Some(x) => push_candidates(x, b),
            None => None,
        }),
    decreases b.len(),
{
    if b.len() == 0 {
        assert(a + b =~= a);
    } else {
        lemma_push_candidates_append(acc, a, b.drop_last());
        assert((a + b).drop_last() =~= a + b.drop_last());
        assert((a + b).last() == b.last());
        match push_candidates(acc, a) {
            Some(x) => {},
            None => {},
        }
    }
}

proof fn lemma_terms_stable(ts: Seq<UnionTerm>, n: nat, decls: Seq<SetDecl>, r1: Seq<Option<ResolvedSet>>, r2: Seq<Option<ResolvedSet>>)
    requires
        n <= ts.len(),
        r1.len() == decls.len(),
        refs_resolved(ts, n, decls, r1),
        grows(r1, r2),
    ensures
        terms_candidates(ts, n, decls, r1) == terms_candidates(ts, n, decls, r2),
        refs_resolved(ts, n, decls, r2),
        terms_refs_len(ts, n, decls, r1) == terms_refs_len(ts, n, decls, r2),
        forall|out: Seq<SetRef>| #[trigger] terms_refs_ok(ts, n, decls, r1, out) == terms_refs_ok(ts, n, decls, r2, out),
    decreases n,
{
    if n > 0 {
        lemma_terms_stable(ts, (n - 1) as nat, decls, r1, r2);
        let t = ts[n - 1];
        assert(refs_resolved(ts, n, decls, r1));
        match t {
            UnionTerm::SetRef(r) => {
                let k = decl_index(decls, r.name@)->0;
                assert(decl_index(decls, r.name@) is Some && r1[k] is Some);
                if exists|i: int| 0 <= i < decls.len() && (#[trigger] decls[i]).name@ == r.name@ {
                    assert(0 <= k < decls.len());
                }
                assert(r2[k] == r1[k]);
                assert(term_refs_len(t, decls, r1) == term_refs_len(t, decls, r2));
                assert forall|p: Seq<SetRef>| #[trigger] term_refs_ok(t, decls, r1, p) == term_refs_ok(t, decls, r2, p) by {}
            },
            UnionTerm::Inline(_) => {
                assert forall|p: Seq<SetRef>| #[trigger] term_refs_ok(t, decls, r1, p) == term_refs_ok(t, decls, r2, p) by {}
            },
        }
        let before = terms_refs_len(ts, (n - 1) as nat, decls, r1);
        assert forall|out: Seq<SetRef>| #[trigger] terms_refs_ok(ts, n, decls, r1, out) == terms_refs_ok(ts, n, decls, r2, out) by {
            assert(terms_refs_ok(ts, (n - 1) as nat, decls, r1, out.take(before as int)) == terms_refs_ok(ts, (n - 1) as nat, decls, r2, out.take(before as int)));
            assert(term_refs_ok(t, decls, r1, out.skip(before as int)) == term_refs_ok(t, decls, r2, out.skip(before as int)));
        }
        assert forall|j: int| 0 <= j < n && j < ts.len() implies match #[trigger] ts[j] {
            UnionTerm::SetRef(r) => decl_index(decls, r.name@) matches Some(k) && r2[k] is Some,
            UnionTerm::Inline(_) => true,
        } by {
            match ts[j] {
                UnionTerm::SetRef(r) => {
                    let k = decl_index(decls, r.name@)->0;
                    if exists|i: int| 0 <= i < decls.len() && (#[trigger] decls[i]).name@ == r.name@ {
                        assert(0 <= k < decls.len());
                    }
                    assert(r2[k] == r1[k]);
                },
                UnionTerm::Inline(_) => {},
            }
        }
    }
}

proof fn lemma_building_extends(vs: Seq<ResolvedVariant>, m: Set<nat>, s1: Seq<Seq<char>>, s2: Seq<Seq<char>>)
    requires
        building_ok(vs, m, s1),
        extends(s1, s2),
    ensures
        building_ok(vs, m, s2),
{
    assert forall|i: int| 0 <= i < vs.len() implies variant_ok(#[trigger] vs[i], s2) by {
        assert(variant_ok(vs[i], s1));
        assert(s2[vs[i].symbol as int] == s1[vs[i].symbol as int]);
    }
}

proof fn lemma_entries_preserved(
    decls: Seq<SetDecl>,
    r1: Seq<Option<ResolvedSet>>,
    r2: Seq<Option<ResolvedSet>>,
    s1: Seq<Seq<char>>,
    s2: Seq<Seq<char>>,
)
    requires
        r1.len() == decls.len(),
        all_entries_ok(decls, r1, s1),
        grows(r1, r2),
        extends(s1, s2),
        forall|i: int| 0 <= i < r2.len() && r1[i] is None ==> #[trigger] entry_ok(decls, r2, i, s2),
    ensures
        all_entries_ok(decls, r2, s2),
{
    assert forall|i: int| 0 <= i < r2.len() implies #[trigger] entry_ok(decls, r2, i, s2) by {
        if r1[i] is Some {
            assert(entry_ok(decls, r1, i, s1));
            let rs = r1[i]->0;
            let ts = decls[i].terms@;
            lemma_terms_stable(ts, ts.len(), decls, r1, r2);
            lemma_building_extends(rs.variants@, rs.members.view(), s1, s2);
            assert(r2[i] == r1[i]);
        }
    }
}

/// The candidates of inline variants.
pub open spec fn inline_candidates(vs: Seq<VariantShape>) -> Seq<Candidate> {
    vs.map_values(|v: VariantShape| shape_candidate(v))
}

/// The candidates that a reference contributes from the variants of its
/// source set.
pub open spec fn substituted_candidates(
    src: Seq<ResolvedVariant>,
    tm: Seq<(Seq<char>, Seq<Seq<char>>)>,
    lm: Seq<(Seq<char>, Seq<char>)>,
) -> Seq<Candidate> {
    resolved_candidates(src).map_values(|c: Candidate| (c.0, substitute(c.1, tm, lm)))
}

/// Adding the candidates `cs` to `acc` in order first fails at a candidate
/// named `n`: the candidates before it merge, and it has the name of a
/// merged candidate with another signature.
pub open spec fn conflict_at(acc: Seq<Candidate>, cs: Seq<Candidate>, n: Seq<char>) -> bool {
    exists|m: int| 0 <= m < cs.len() && #[trigger] push_candidates(acc, cs.take(m)) is Some
        && push_candidate(push_candidates(acc, cs.take(m))->0, cs[m]) is None
        && cs[m].0 == n
}

/// A conflict within the later candidates is a conflict of them all.
proof fn lemma_conflict_append(acc: Seq<Candidate>, a: Seq<Candidate>, b: Seq<Candidate>, n: Seq<char>)
    requires
        push_candidates(acc, a) is Some,
        conflict_at(push_candidates(acc, a)->0, b, n),
    ensures
        conflict_at(acc, a + b, n),
{
    let x = push_candidates(acc, a)->0;
    let m = choose|m: int| 0 <= m < b.len() && #[trigger] push_candidates(x, b.take(m)) is Some
        && push_candidate(push_candidates(x, b.take(m))->0, b[m]) is None && b[m].0 == n;
    let ab = a + b;
    assert(ab.take(a.len() + m) =~= a + b.take(m));
    lemma_push_candidates_append(acc, a, b.take(m));
    assert(ab[a.len() + m] == b[m]);
    assert(push_candidates(acc, ab.take(a.len() + m)) is Some);
}

/// Adds inline variants in order.
fn push_inline(
    vs: &Vec<VariantShape>,
    variants: &mut Vec<ResolvedVariant>,
    members: &mut BitSet,
    symbol_table: &mut SymbolTable,
) -> (r: Result<(), ResolveError>)
    requires
        old(symbol_table).well_formed(),
        building_ok(old(variants)@, old(members).view(), old(symbol_table).view()),
    ensures
        final(symbol_table).well_formed(),
        extends(old(symbol_table).view(), final(symbol_table).view()),
        r is Ok <==> push_candidates(resolved_candidates(old(variants)@), inline_candidates(vs@)) is Some,
        r is Ok ==> Some(resolved_candidates(final(variants)@)) == push_candidates(resolved_candidates(old(variants)@), inline_candidates(vs@)),
        r is Ok ==> building_ok(final(variants)@, final(members).view(), final(symbol_table).view()),
        r matches Err(e) ==> e is ShapeConflict,
        r matches Err(ResolveError::ShapeConflict(n)) ==> conflict_at(resolved_candidates(old(variants)@), inline_candidates(vs@), n@),
{
    let ghost acc0 = resolved_candidates(variants@);
    let ghost cs = inline_candidates(vs@);
    let ghost sym0 = symbol_table.view();
    let mut j: usize = 0;
    while j < vs.len()
        invariant
            j <= vs@.len(),
            acc0 == resolved_candidates(old(variants)@),
            cs == inline_candidates(vs@),
            sym0 == old(symbol_table).view(),
            symbol_table.well_formed(),
            extends(sym0, symbol_table.view()),
            Some(resolved_candidates(variants@)) == push_candidates(acc0, cs.subrange(0, j as int)),
            building_ok(variants@, members.view(), symbol_table.view()),
        decreases vs@.len() - j,
    {
        let ghost s_before = symbol_table.view();
        let tokens = clone_tokens(&vs[j].tokens);
        let rv = make_variant(&vs[j].name, tokens, symbol_table);
        proof {
            lemma_building_extends(variants@, members.view(), s_before, symbol_table.view());
            assert(cs.subrange(0, j as int + 1).drop_last() =~= cs.subrange(0, j as int));
            assert(cs[j as int] == shape_candidate(rv.variant));
        }
        let ghost pre = resolved_candidates(variants@);
        let res = try_push_variant(variants, members, rv, Ghost(symbol_table.view()));
        if res.is_err() {
            proof {
                lemma_push_candidates_none(acc0, cs.subrange(0, j as int + 1), cs);
                assert(cs.take(j as int) =~= cs.subrange(0, j as int));
                assert(push_candidates(acc0, cs.take(j as int)) is Some);
            }
            return res;
        }
        j += 1;
    }
    assert(cs.subrange(0, vs@.len() as int) =~= cs);
    Ok(())
}

proof fn lemma_push_candidates_none(acc: Seq<Candidate>, a: Seq<Candidate>, b: Seq<Candidate>)
    requires
        push_candidates(acc, a) is None,
        a.len() <= b.len(),
        a == b.subrange(0, a.len() as int),
    ensures
        push_candidates(acc, b) is None,
    decreases b.len() - a.len(),
{
    if a.len() < b.len() {
        assert(b.drop_last().subrange(0, a.len() as int) =~= a);
        lemma_push_candidates_none(acc, a, b.drop_last());
    } else {
        assert(a =~= b);
    }
}

/// Adds the variants of a referenced set, with the reference's substitution
/// applied, in order.
fn push_substituted(
    src: &Vec<ResolvedVariant>,
    tm: &TypeMap,
    lm: &LifetimeMap,
    variants: &mut Vec<ResolvedVariant>,
    members: &mut BitSet,
    symbol_table: &mut SymbolTable,
) -> (r: Result<(), ResolveError>)
    requires
        old(symbol_table).well_formed(),
        building_ok(old(variants)@, old(members).view(), old(symbol_table).view()),
    ensures
        final(symbol_table).well_formed(),
        extends(old(symbol_table).view(), final(symbol_table).view()),
        r is Ok <==> push_candidates(resolved_candidates(old(variants)@), substituted_candidates(src@, type_map_view(tm@), lifetime_map_view(lm@))) is Some,
        r is Ok ==> Some(resolved_candidates(final(variants)@)) == push_candidates(resolved_candidates(old(variants)@), substituted_candidates(src@, type_map_view(tm@), lifetime_map_view(lm@))),
        r is Ok ==> building_ok(final(variants)@, final(members).view(), final(symbol_table).view()),
        r matches Err(e) ==> e is ShapeConflict,
        r matches Err(ResolveError::ShapeConflict(n)) ==> conflict_at(resolved_candidates(old(variants)@), substituted_candidates(src@, type_map_view(tm@), lifetime_map_view(lm@)), n@),
{
    let ghost acc0 = resolved_candidates(variants@);
    let ghost cs = substituted_candidates(src@, type_map_view(tm@), lifetime_map_view(lm@));
    let ghost sym0 = symbol_table.view();
    let mut j: usize = 0;
    while j < src.len()
        invariant
            j <= src@.len(),
            acc0 == resolved_candidates(old(variants)@),
            cs == substituted_candidates(src@, type_map_view(tm@), lifetime_map_view(lm@)),
            sym0 == old(symbol_table).view(),
            symbol_table.well_formed(),
            extends(sym0, symbol_table.view()),
            Some(resolved_candidates(variants@)) == push_candidates(acc0, cs.subrange(0, j as int)),
            building_ok(variants@, members.view(), symbol_table.view()),
        decreases src@.len() - j,
    {
        let ghost s_before = symbol_table.view();
        let tokens = substitute_tokens(&src[j].variant.tokens, tm, lm);
        let rv = make_variant(&src[j].variant.name, tokens, symbol_table);
        proof {
            lemma_building_extends(variants@, members.view(), s_before, symbol_table.view());
            assert(cs.subrange(0, j as int + 1).drop_last() =~= cs.subrange(0, j as int));
            assert(cs[j as int] == shape_candidate(rv.variant));
        }
        let res = try_push_variant(variants, members, rv, Ghost(symbol_table.view()));
        if res.is_err() {
            proof {
                lemma_push_candidates_none(acc0, cs.subrange(0, j as int + 1), cs);
                assert(cs.take(j as int) =~= cs.subrange(0, j as int));
                assert(push_candidates(acc0, cs.take(j as int)) is Some);
            }
            return res;
        }
        j += 1;
    }
    assert(cs.subrange(0, src@.len() as int) =~= cs);
    Ok(())
}

/// A generic argument after a substitution: a type's tokens substituted, a
/// lifetime replaced when the substitution maps it.
pub open spec fn substituted_arg_matches(a: GenericArg, b: GenericArg, tm: Seq<(Seq<char>, Seq<Seq<char>>)>, lm: Seq<(Seq<char>, Seq<char>)>) -> bool {
    match (a, b) {
        (GenericArg::Type(t), GenericArg::Type(u)) => tokens_view(u@) == substitute(tokens_view(t@), tm, lm),
        (GenericArg::Lifetime(x), GenericArg::Lifetime(y)) => y@ == (match last_key_index(lm, x@) {
            Some(k) => lm[k].1,
            None => x@,
        }),
        (GenericArg::Other, GenericArg::Other) => true,
        _ => false,
    }
}

/// Applies a substitution to the arguments of a set reference.
fn substitute_ref(r: &SetRef, tm: &TypeMap, lm: &LifetimeMap) -> (out: SetRef)
    ensures
        out.name@ == r.name@,
        r.args is None <==> out.args is None,
        r.args matches Some(a) ==> (out.args matches Some(b) && b@.len() == a@.len()
            && forall|i: int| 0 <= i < a@.len() ==> substituted_arg_matches(#[trigger] a@[i], b@[i], type_map_view(tm@), lifetime_map_view(lm@))),
{
    let args = match &r.args {
        Some(a) => {
            let mut b: Vec<GenericArg> = Vec::new();
            let mut i: usize = 0;
            while i < a.len()
                invariant
                    i <= a@.len(),
                    b@.len() == i,
                    forall|j: int| 0 <= j < i ==> substituted_arg_matches(#[trigger] a@[j], b@[j], type_map_view(tm@), lifetime_map_view(lm@)),
                decreases a@.len() - i,
            {
                let arg = match &a[i] {
                    GenericArg::Type(t) => GenericArg::Type(substitute_tokens(t, tm, lm)),
                    GenericArg::Lifetime(x) => match find_lifetime(lm, x.as_str()) {
                        Some(k) => GenericArg::Lifetime(clone_string(&lm[k].1)),
                        None => GenericArg::Lifetime(clone_string(x)),
                    },
                    GenericArg::Other => GenericArg::Other,
                };
                b.push(arg);
                i += 1;
            }
            Some(b)
        },
        None => None,
    };
    SetRef { name: clone_string(&r.name), args }
}

/// The names of the declarations on the stack, then `name`.
fn cycle_chain(decls: &Vec<SetDecl>, stack: &Vec<usize>, name: &str) -> (chain: Vec<String>)
    requires
        forall|j: int| 0 <= j < stack@.len() ==> (#[trigger] stack@[j]) < decls@.len(),
    ensures
        chain@.map_values(|s: String| s@) == stack_names(decls@, stack@).push(name@),
{
    let mut chain: Vec<String> = Vec::new();
    let mut j: usize = 0;
    while j < stack.len()
        invariant
            j <= stack@.len(),
            forall|i: int| 0 <= i < stack@.len() ==> (#[trigger] stack@[i]) < decls@.len(),
            chain@.map_values(|s: String| s@) == stack_names(decls@, stack@.subrange(0, j as int)),
        decreases stack@.len() - j,
    {
        let ghost c0 = chain@;
        let nm = clone_string(&decls[stack[j]].name);
        chain.push(nm);
        proof {
            let prev = stack_names(decls@, stack@.subrange(0, j as int));
            let next = stack_names(decls@, stack@.subrange(0, j as int + 1));
            assert(next =~= prev.push(decls@[stack@[j as int] as int].name@));
            assert(chain@ =~= c0.push(nm));
            assert(chain@.map_values(|s: String| s@) =~= c0.map_values(|s: String| s@).push(nm@));
        }
        j += 1;
    }
    let ghost c1 = chain@;
    let last = name.to_string();
    chain.push(last);
    proof {
        assert(stack@.subrange(0, stack@.len() as int) =~= stack@);
        assert(chain@ =~= c1.push(last));
        assert(chain@.map_values(|s: String| s@) =~= c1.map_values(|s: String| s@).push(last@));
    }
    chain
}

/// Some declaration refers to a set named `n`.
pub open spec fn referenced(decls: Seq<SetDecl>, n: Seq<char>) -> bool {
    exists|i: int, j: int| 0 <= i < decls.len() && 0 <= j < decls[i].terms@.len() && term_refers(#[trigger] decls[i].terms@[j], n)
}

/// Every set that a declaration refers to is declared.
pub open spec fn refs_declared(decls: Seq<SetDecl>) -> bool {
    forall|n: Seq<char>| #[trigger] referenced(decls, n) ==> decl_index(decls, n) is Some
}

/// Resolving declaration `i` meets two variants named `n` with different
/// field shapes: with the sets it refers to resolved as their declarations
/// say, merging the candidates of its first `t` terms first fails at `n`.
pub open spec fn shape_conflict(decls: Seq<SetDecl>, n: Seq<char>) -> bool {
    exists|res: Seq<Option<ResolvedSet>>, symbols: Seq<Seq<char>>, i: int, t: nat|
        #![trigger all_entries_ok(decls, res, symbols), refs_resolved(decls[i].terms@, t, decls, res)]
        res.len() == decls.len() && all_entries_ok(decls, res, symbols) && 0 <= i < decls.len()
        && t <= decls[i].terms@.len() && refs_resolved(decls[i].terms@, t, decls, res)
        && conflict_at(Seq::empty(), terms_candidates(decls[i].terms@, t, decls, res), n)
}

/// No chain of references returns to one of its sets.
pub open spec fn no_cycle(decls: Seq<SetDecl>) -> bool {
    forall|chain: Seq<Seq<char>>| !#[trigger] is_cycle(decls, chain)
}

/// No declaration meets two variants of one name with different shapes.
pub open spec fn no_shape_conflict(decls: Seq<SetDecl>) -> bool {
    forall|n: Seq<char>| !#[trigger] shape_conflict(decls, n)
}

/// Whether the set named `n` has no entry yet (an undeclared name has none).
pub open spec fn unresolved_name(decls: Seq<SetDecl>, resolved: Seq<Option<ResolvedSet>>, n: Seq<char>) -> bool {
    match decl_index(decls, n) {
        Some(i) => resolved[i] is None,
        None => true,
    }
}

/// Every chain of references that closes on itself passes through a set
/// that has no entry yet: a set gets its entry only after the sets it
/// refers to, so no cycle is ever fully resolved.
pub open spec fn cycles_unresolved(decls: Seq<SetDecl>, resolved: Seq<Option<ResolvedSet>>) -> bool {
    forall|chain: Seq<Seq<char>>| #[trigger] is_cycle(decls, chain)
        ==> exists|i: int| 0 <= i < chain.len() && #[trigger] unresolved_name(decls, resolved, chain[i])
}

proof fn lemma_decl_index_bound(decls: Seq<SetDecl>, n: Seq<char>)
    ensures
        decl_index(decls, n) matches Some(i) ==> 0 <= i < decls.len() && decls[i].name@ == n,
{
}

proof fn lemma_nothing_resolved_cycles_open(decls: Seq<SetDecl>, resolved: Seq<Option<ResolvedSet>>)
    requires
        resolved.len() == decls.len(),
        forall|i: int| 0 <= i < resolved.len() ==> (#[trigger] resolved[i]) is None,
    ensures
        cycles_unresolved(decls, resolved),
{
    assert forall|chain: Seq<Seq<char>>| #[trigger] is_cycle(decls, chain)
        implies exists|i: int| 0 <= i < chain.len() && #[trigger] unresolved_name(decls, resolved, chain[i]) by {
        lemma_decl_index_bound(decls, chain[0]);
        assert(unresolved_name(decls, resolved, chain[0]));
    }
}

/// A reference from a resolved set leads to a resolved set.
proof fn lemma_reference_resolved(decls: Seq<SetDecl>, resolved: Seq<Option<ResolvedSet>>, symbols: Seq<Seq<char>>, m: int, a: Seq<char>, b: Seq<char>)
    requires
        resolved.len() == decls.len(),
        decl_index(decls, a) == Some(m),
        references(decls, a, b),
        refs_resolved(decls[m].terms@, decls[m].terms@.len(), decls, resolved),
    ensures
        decl_index(decls, b) matches Some(x) && resolved[x] is Some,
{
    let ts = decls[m].terms@;
    let j = choose|j: int| 0 <= j < ts.len() && term_refers(#[trigger] ts[j], b);
    match ts[j] {
        UnionTerm::SetRef(r) => {},
        UnionTerm::Inline(_) => {},
    }
}

/// Giving set `k` its entry, once every set it refers to has one, leaves
/// every cycle with a set that has none.
proof fn lemma_resolving_keeps_cycles_open(
    decls: Seq<SetDecl>,
    r1: Seq<Option<ResolvedSet>>,
    r2: Seq<Option<ResolvedSet>>,
    k: int,
    symbols: Seq<Seq<char>>,
)
    requires
        r1.len() == decls.len(),
        r2.len() == decls.len(),
        0 <= k < decls.len(),
        r1[k] is None,
        forall|i: int| 0 <= i < r1.len() && i != k ==> #[trigger] r2[i] == r1[i],
        cycles_unresolved(decls, r1),
        all_entries_ok(decls, r1, symbols),
        refs_resolved(decls[k].terms@, decls[k].terms@.len(), decls, r1),
    ensures
        cycles_unresolved(decls, r2),
{
    assert forall|chain: Seq<Seq<char>>| #[trigger] is_cycle(decls, chain)
        implies exists|i: int| 0 <= i < chain.len() && #[trigger] unresolved_name(decls, r2, chain[i]) by {
        if !(exists|i: int| 0 <= i < chain.len() && #[trigger] unresolved_name(decls, r2, chain[i])) {
            let len = chain.len();
            let j = choose|j: int| 0 <= j < len - 1 && chain[j] == chain.last();
            let cyc = chain.subrange(j, len as int);
            assert(is_cycle(decls, cyc)) by {
                assert(cyc[0] == cyc.last());
                assert forall|q: int| 0 <= q < cyc.len() - 1 implies references(decls, cyc[q], #[trigger] cyc[q + 1]) by {
                    assert(cyc[q] == chain[j + q] && cyc[q + 1] == chain[j + q + 1]);
                }
            }
            let p0 = choose|p: int| 0 <= p < cyc.len() && #[trigger] unresolved_name(decls, r1, cyc[p]);
            let p = if p0 == 0 { cyc.len() - 1 } else { p0 };
            let b = cyc[p];
            assert(b == cyc[p0]);
            assert(!unresolved_name(decls, r2, chain[j + p]));
            lemma_decl_index_bound(decls, b);
            let x = decl_index(decls, b)->0;
            assert(x == k) by {
                if x != k {
                    assert(r2[x] == r1[x]);
                }
            }
            let q = p - 1;
            let a = cyc[q];
            assert(references(decls, cyc[q], cyc[q + 1]));
            assert(cyc[q + 1] == b);
            lemma_decl_index_bound(decls, a);
            let m = decl_index(decls, a)->0;
            if m == k {
                lemma_reference_resolved(decls, r1, symbols, m, a, b);
            } else {
                assert(!unresolved_name(decls, r2, chain[j + q]));
                assert(r2[m] == r1[m]);
                assert(entry_ok(decls, r1, m, symbols));
                lemma_reference_resolved(decls, r1, symbols, m, a, b);
            }
            assert(false);
        }
    }
}

/// Once every set is resolved, no chain of references closes on itself.
proof fn lemma_all_resolved_no_cycle(decls: Seq<SetDecl>, resolved: Seq<Option<ResolvedSet>>)
    requires
        resolved.len() == decls.len(),
        all_resolved(resolved),
        cycles_unresolved(decls, resolved),
    ensures
        no_cycle(decls),
{
    assert forall|chain: Seq<Seq<char>>| !#[trigger] is_cycle(decls, chain) by {
        if is_cycle(decls, chain) {
            let i = choose|i: int| 0 <= i < chain.len() && #[trigger] unresolved_name(decls, resolved, chain[i]);
            let j = choose|j: int| 0 <= j < chain.len() - 1 && chain[j] == chain.last();
            let q = if i < chain.len() - 1 { i } else { j };
            assert(chain[q] == chain[i]);
            assert(references(decls, chain[q], chain[q + 1]));
            lemma_decl_index_bound(decls, chain[q]);
        }
    }
}

/// Resolves the set named `name` and, first, every set it references.
///
/// On success the set has an entry in `resolved`, and every entry agrees
/// with its declaration; a reported cycle is a chain of references that
/// returns to one of its sets.
pub fn resolve_set(
    name: &str,
    decls: &Vec<SetDecl>,
    resolved: &mut Vec<Option<ResolvedSet>>,
    stack: &mut Vec<usize>,
    symbol_table: &mut SymbolTable,
) -> (r: Result<(), ResolveError>)
    requires
        decl_names_distinct(decls@),
        old(resolved)@.len() == decls@.len(),
        stack_ok(decls@, old(resolved)@, old(stack)@),
        old(stack)@.len() > 0 ==> references(decls@, decls@[old(stack)@.last() as int].name@, name@),
        old(symbol_table).well_formed(),
        all_entries_ok(decls@, old(resolved)@, old(symbol_table).view()),
        cycles_unresolved(decls@, old(resolved)@),
    ensures
        grows(old(resolved)@, final(resolved)@),
        cycles_unresolved(decls@, final(resolved)@),
        forall|j: int| 0 <= j < old(stack)@.len() ==> final(resolved)@[#[trigger] old(stack)@[j] as int] is None,
        final(symbol_table).well_formed(),
        extends(old(symbol_table).view(), final(symbol_table).view()),
        all_entries_ok(decls@, final(resolved)@, final(symbol_table).view()),
        r is Ok ==> final(stack)@ == old(stack)@,
        r is Ok ==> (decl_index(decls@, name@) matches Some(k) && final(resolved)@[k] is Some),
        r matches Err(ResolveError::UndefinedSet(n)) ==> decl_index(decls@, n@) is None
            && (n@ == name@ || referenced(decls@, n@)),
        r matches Err(ResolveError::Cycle(chain)) ==> is_cycle(decls@, chain@.map_values(|s: String| s@)),
        r matches Err(ResolveError::ShapeConflict(n)) ==> shape_conflict(decls@, n@),
        !(r matches Err(ResolveError::DuplicateSet(_))),
        decl_index(decls@, name@) is Some && refs_declared(decls@) && no_cycle(decls@) && no_shape_conflict(decls@) ==> r is Ok,
    decreases decls@.len() - old(stack)@.len(),
{
    let k = match find_decl(decls, name) {
        Some(k) => k,
        None => {
            return Err(ResolveError::UndefinedSet(name.to_string()));
        },
    };
    if resolved[k].is_some() {
        return Ok(());
    }
    let mut j: usize = 0;
    #[verifier::loop_isolation(false)]
    while j < stack.len()
        invariant
            j <= stack@.len(),
            forall|i: int| 0 <= i < j ==> stack@[i] != k,
        decreases stack@.len() - j,
    {
        if stack[j] == k {
            let chain = cycle_chain(decls, stack, name);
            proof {
                let names = stack_names(decls@, stack@).push(name@);
                assert(decls@[k as int].name@ == name@) by {
                    let i = choose|i: int| 0 <= i < decls@.len() && (#[trigger] decls@[i]).name@ == name@;
                }
                assert(names[j as int] == decls@[stack@[j as int] as int].name@);
                assert(names[j as int] == names.last());
                assert forall|i: int| 0 <= i < names.len() - 1 implies references(decls@, names[i], #[trigger] names[i + 1]) by {
                    if i + 1 < stack@.len() {
                        assert(references(decls@, decls@[stack@[i] as int].name@, decls@[stack@[i + 1] as int].name@));
                    }
                }
            }
            proof {
                assert(is_cycle(decls@, chain@.map_values(|s: String| s@)));
            }
            return Err(ResolveError::Cycle(chain));
        }
        j += 1;
    }
    proof {
        lemma_stack_bound(stack@.push(k), decls@.len());
    }
    let ghost stack0 = stack@;
    let ghost res0 = resolved@;
    let ghost sym0 = symbol_table.view();
    stack.push(k);
    let mut variants: Vec<ResolvedVariant> = Vec::new();
    let mut members = BitSet::with_capacity(symbol_table.len());
    let mut set_refs: Vec<SetRef> = Vec::new();
    let terms = &decls[k].terms;
    let ghost ts = terms@;
    let mut t: usize = 0;
    assert(resolved_candidates(variants@) =~= Seq::<Candidate>::empty());
    assert(members.view() =~= symbols_of(variants@));
    while t < terms.len()
        invariant
            decl_names_distinct(decls@),
            stack0 == old(stack)@,
            stack0.len() + 1 <= decls@.len(),
            res0 == old(resolved)@,
            sym0 == old(symbol_table).view(),
            forall|j: int| 0 <= j < stack0.len() ==> resolved@[#[trigger] stack0[j] as int] is None,
            decl_index(decls@, name@) == Some(k as int),
            k < decls@.len(),
            ts == decls@[k as int].terms@,
            terms@ == ts,
            t <= ts.len(),
            resolved@.len() == decls@.len(),
            stack@ == stack0.push(k),
            stack_ok(decls@, resolved@, stack@),
            grows(res0, resolved@),
            res0[k as int] is None,
            symbol_table.well_formed(),
            extends(sym0, symbol_table.view()),
            all_entries_ok(decls@, resolved@, symbol_table.view()),
            refs_resolved(ts, t as nat, decls@, resolved@),
            push_candidates(Seq::empty(), terms_candidates(ts, t as nat, decls@, resolved@)) == Some(resolved_candidates(variants@)),
            building_ok(variants@, members.view(), symbol_table.view()),
            terms_refs_ok(ts, t as nat, decls@, resolved@, set_refs@),
            cycles_unresolved(decls@, resolved@),
        decreases ts.len() - t,
    {
        let ghost res_t = resolved@;
        let ghost sym_t = symbol_table.view();
        let ghost acc_t = resolved_candidates(variants@);
        match &terms[t] {
            UnionTerm::Inline(vs) => {
                let res = push_inline(vs, &mut variants, &mut members, symbol_table);
                proof {
                    lemma_push_candidates_append(Seq::empty(), terms_candidates(ts, t as nat, decls@, res_t), inline_candidates(vs@));
                }
                proof {
                    lemma_entries_preserved(decls@, resolved@, resolved@, sym_t, symbol_table.view());
                }
                if res.is_err() {
                    proof {
                        let ts1 = terms_candidates(ts, (t + 1) as nat, decls@, resolved@);
                        assert(ts1 == terms_candidates(ts, t as nat, decls@, resolved@) + term_candidates(ts[t as int], decls@, resolved@));
                        lemma_conflict_append(Seq::empty(), terms_candidates(ts, t as nat, decls@, res_t), inline_candidates(vs@), res->Err_0->ShapeConflict_0@);
                        assert(refs_resolved(ts, (t + 1) as nat, decls@, resolved@));
                        assert(all_entries_ok(decls@, resolved@, symbol_table.view()) && refs_resolved(decls@[k as int].terms@, (t + 1) as nat, decls@, resolved@));
                        assert(shape_conflict(decls@, res->Err_0->ShapeConflict_0@));
                    }
                    return res;
                }
                proof {
                    assert(set_refs@.take(set_refs@.len() as int) =~= set_refs@);
                    assert(set_refs@.skip(set_refs@.len() as int) =~= Seq::<SetRef>::empty());
                    assert(terms_refs_ok(ts, (t + 1) as nat, decls@, resolved@, set_refs@));
                }
            },
            UnionTerm::SetRef(r) => {
                let kr = match find_decl(decls, r.name.as_str()) {
                    Some(kr) => kr,
                    None => {
                        proof {
                            assert(term_refers(decls@[k as int].terms@[t as int], r.name@));
                            assert(referenced(decls@, r.name@));
                        }
                        return Err(ResolveError::UndefinedSet(clone_string(&r.name)));
                    },
                };
                proof {
                    assert(term_refers(decls@[k as int].terms@[t as int], r.name@));
                    assert(decl_index(decls@, decls@[k as int].name@) == Some(k as int)) by {
                        let i = choose|i: int| 0 <= i < decls@.len() && (#[trigger] decls@[i]).name@ == decls@[k as int].name@;
                        assert(i == k as int);
                    }
                }
                let ghost st_call = stack@;
                let sub = resolve_set(r.name.as_str(), decls, resolved, stack, symbol_table);
                proof {
                    assert forall|j: int| 0 <= j < stack0.len() implies resolved@[#[trigger] stack0[j] as int] is None by {
                        assert(st_call[j] == stack0[j]);
                    }
                    assert(resolved@[k as int] is None) by {
                        assert(st_call[stack0.len() as int] == k);
                    }
                }
                if sub.is_err() {
                    return sub;
                }
                proof {
                    lemma_terms_stable(ts, t as nat, decls@, res_t, resolved@);
                    lemma_building_extends(variants@, members.view(), sym_t, symbol_table.view());
                }
                let ghost res_r = resolved@;
                let ghost sym_r = symbol_table.view();
                let ghost base = set_refs@;
                proof {
                    assert(terms_refs_ok(ts, t as nat, decls@, resolved@, base));
                }
                let empty_types: TypeMap = Vec::new();
                let empty_lifetimes: LifetimeMap = Vec::new();
                proof {
                    assert(type_map_view(empty_types@) =~= Seq::<(Seq<char>, Seq<Seq<char>>)>::empty());
                    assert(lifetime_map_view(empty_lifetimes@) =~= Seq::<(Seq<char>, Seq<char>)>::empty());
                }
                set_refs.push(substitute_ref(r, &empty_types, &empty_lifetimes));
                let maps = build_ref_maps(&decls[kr].generics, &r.args);
                match &resolved[kr] {
                    Some(src) => {
                        let mut q: usize = 0;
                        while q < src.set_refs.len()
                            invariant
                                q <= src.set_refs@.len(),
                                set_refs@.len() == base.len() + 1 + q,
                                forall|i: int| 0 <= i < base.len() ==> #[trigger] set_refs@[i] == base[i],
                                ref_matches(*r, set_refs@[base.len() as int], Seq::empty(), Seq::empty()),
                                forall|p: int| 0 <= p < q ==> ref_matches(#[trigger] src.set_refs@[p], set_refs@[base.len() + 1 + p], type_map_view(maps.0@), lifetime_map_view(maps.1@)),
                            decreases src.set_refs@.len() - q,
                        {
                            set_refs.push(substitute_ref(&src.set_refs[q], &maps.0, &maps.1));
                            q += 1;
                        }
                        proof {
                            let piece = set_refs@.skip(base.len() as int);
                            assert(set_refs@.take(base.len() as int) =~= base);
                            let m = ref_maps(decls@[kr as int].generics@, args_seq(r.args), decls@[kr as int].generics@.len());
                            assert(resolved@[kr as int] == Some(*src));
                            assert(ts[t as int] == UnionTerm::SetRef(*r));
                            assert(piece[0] == set_refs@[base.len() as int]);
                            assert forall|p: int| 0 <= p < src.set_refs@.len() implies ref_matches(#[trigger] src.set_refs@[p], piece[1 + p], m.0, m.1) by {
                                assert(piece[1 + p] == set_refs@[base.len() + 1 + p]);
                            }
                            assert(term_refs_ok(ts[t as int], decls@, resolved@, piece));
                            assert(terms_refs_ok(ts, (t + 1) as nat, decls@, resolved@, set_refs@));
                        }
                        let res = push_substituted(&src.variants, &maps.0, &maps.1, &mut variants, &mut members, symbol_table);
                        proof {
                            assert(term_candidates(ts[t as int], decls@, res_r) == substituted_candidates(src.variants@, type_map_view(maps.0@), lifetime_map_view(maps.1@)));
                            lemma_push_candidates_append(Seq::empty(), terms_candidates(ts, t as nat, decls@, res_r), substituted_candidates(src.variants@, type_map_view(maps.0@), lifetime_map_view(maps.1@)));
                        }
                        proof {
                            lemma_entries_preserved(decls@, resolved@, resolved@, sym_r, symbol_table.view());
                        }
                        if res.is_err() {
                            proof {
                                let ts1 = terms_candidates(ts, (t + 1) as nat, decls@, resolved@);
                                assert(ts1 == terms_candidates(ts, t as nat, decls@, resolved@) + term_candidates(ts[t as int], decls@, resolved@));
                                lemma_conflict_append(Seq::empty(), terms_candidates(ts, t as nat, decls@, res_r), substituted_candidates(src.variants@, type_map_view(maps.0@), lifetime_map_view(maps.1@)), res->Err_0->ShapeConflict_0@);
                                assert(refs_resolved(ts, (t + 1) as nat, decls@, resolved@));
                                assert(all_entries_ok(decls@, resolved@, symbol_table.view()) && refs_resolved(decls@[k as int].terms@, (t + 1) as nat, decls@, resolved@));
                                assert(shape_conflict(decls@, res->Err_0->ShapeConflict_0@));
                            }
                            return res;
                        }
                    },
                    None => {
                        assert(false);
                    },
                }
            },
        }
        proof {
            assert(terms_candidates(ts, (t + 1) as nat, decls@, resolved@) == terms_candidates(ts, t as nat, decls@, resolved@) + term_candidates(ts[t as int], decls@, resolved@));
        }
        t += 1;
    }
    stack.pop();
    let ghost res_end = resolved@;
    let ghost refs_end = set_refs@;
    let rs = ResolvedSet { name: clone_string(&decls[k].name), variants, members, set_refs };
    resolved.set(k, Some(rs));
    proof {
        assert(stack@ =~= stack0);
        lemma_terms_stable(ts, ts.len(), decls@, res_end, resolved@);
        assert(terms_refs_ok(ts, ts.len(), decls@, resolved@, refs_end));
        lemma_entries_preserved(decls@, res_end, resolved@, symbol_table.view(), symbol_table.view());
        lemma_resolving_keeps_cycles_open(decls@, res_end, resolved@, k as int, symbol_table.view());
    }
    Ok(())
}

/// Checks that no two declarations share a name; the error names the
/// first declaration whose name was already taken.
pub fn collect_decls(decls: &Vec<SetDecl>) -> (r: Result<(), ResolveError>)
    ensures
        r is Ok <==> decl_names_distinct(decls@),
        r matches Err(ResolveError::DuplicateSet(n)) ==> exists|i: int, j: int|
            0 <= i < j < decls@.len() && decls@[i].name@ == decls@[j].name@ && decls@[j].name@ == n@,
        r matches Err(e) ==> e is DuplicateSet,
{
    let mut j: usize = 0;
    while j < decls.len()
        invariant
            j <= decls@.len(),
            decl_names_distinct(decls@.subrange(0, j as int)),
        decreases decls@.len() - j,
    {
        let mut i: usize = 0;
        while i < j
            invariant
                j < decls@.len(),
                i <= j,
                forall|q: int| 0 <= q < i ==> decls@[q].name@ != decls@[j as int].name@,
            decreases j - i,
        {
            if str_eq(decls[i].name.as_str(), decls[j].name.as_str()) {
                proof {
                    assert(!decl_names_distinct(decls@)) by {
                        assert(decls@[i as int].name@ == decls@[j as int].name@);
                    }
                }
                return Err(ResolveError::DuplicateSet(clone_string(&decls[j].name)));
            }
            i += 1;
        }
        assert(decl_names_distinct(decls@.subrange(0, j as int + 1))) by {
            let sub = decls@.subrange(0, j as int + 1);
            assert forall|a: int, b: int| 0 <= a < b < sub.len() implies sub[a].name@ != sub[b].name@ by {
                if b < j {
                    assert(decls@.subrange(0, j as int)[a] == sub[a]);
                    assert(decls@.subrange(0, j as int)[b] == sub[b]);
                }
            }
        }
        j += 1;
    }
    assert(decls@.subrange(0, decls@.len() as int) =~= decls@);
    Ok(())
}

/// Whether every entry is resolved.
pub open spec fn all_resolved(resolved: Seq<Option<ResolvedSet>>) -> bool {
    forall|i: int| 0 <= i < resolved.len() ==> (#[trigger] resolved[i]) is Some
}

/// Resolves every declared set, in declaration order, each with a fresh
/// stack, sharing one symbol table.
pub fn resolve_all(decls: &Vec<SetDecl>, symbol_table: &mut SymbolTable) -> (r: Result<Vec<Option<ResolvedSet>>, ResolveError>)
    requires
        old(symbol_table).well_formed(),
        old(symbol_table).view().len() == 0,
    ensures
        final(symbol_table).well_formed(),
        !decl_names_distinct(decls@) ==> (r matches Err(e) && e is DuplicateSet),
        r matches Ok(res) ==> {
            &&& decl_names_distinct(decls@)
            &&& res@.len() == decls@.len()
            &&& all_resolved(res@)
            &&& all_entries_ok(decls@, res@, final(symbol_table).view())
            &&& refs_declared(decls@)
            &&& no_cycle(decls@)
        },
        r matches Err(ResolveError::UndefinedSet(n)) ==> decl_index(decls@, n@) is None && referenced(decls@, n@),
        r matches Err(ResolveError::Cycle(chain)) ==> is_cycle(decls@, chain@.map_values(|s: String| s@)),
        r matches Err(ResolveError::ShapeConflict(n)) ==> shape_conflict(decls@, n@),
        r matches Err(ResolveError::DuplicateSet(n)) ==> exists|i: int, j: int|
            0 <= i < j < decls@.len() && decls@[i].name@ == decls@[j].name@ && decls@[j].name@ == n@,
        decl_names_distinct(decls@) && refs_declared(decls@) && no_cycle(decls@) && no_shape_conflict(decls@) ==> r is Ok,
{
    let dup = collect_decls(decls);
    if dup.is_err() {
        return Err(dup.unwrap_err());
    }
    let mut resolved: Vec<Option<ResolvedSet>> = Vec::new();
    let mut i: usize = 0;
    while i < decls.len()
        invariant
            i <= decls@.len(),
            resolved@.len() == i,
            forall|j: int| 0 <= j < i ==> (#[trigger] resolved@[j]) is None,
        decreases decls@.len() - i,
    {
        resolved.push(None);
        i += 1;
    }
    assert(all_entries_ok(decls@, resolved@, symbol_table.view()));
    proof {
        lemma_nothing_resolved_cycles_open(decls@, resolved@);
    }
    let mut n: usize = 0;
    while n < decls.len()
        invariant
            decl_names_distinct(decls@),
            n <= decls@.len(),
            resolved@.len() == decls@.len(),
            symbol_table.well_formed(),
            all_entries_ok(decls@, resolved@, symbol_table.view()),
            cycles_unresolved(decls@, resolved@),
            forall|j: int| 0 <= j < n ==> (#[trigger] resolved@[j]) is Some,
        decreases decls@.len() - n,
    {
        let mut stack: Vec<usize> = Vec::new();
        let ghost before = resolved@;
        let res = resolve_set(decls[n].name.as_str(), decls, &mut resolved, &mut stack, symbol_table);
        if res.is_err() {
            return Err(res.unwrap_err());
        }
        proof {
            assert(decl_index(decls@, decls@[n as int].name@) == Some(n as int)) by {
                let k = choose|k: int| 0 <= k < decls@.len() && (#[trigger] decls@[k]).name@ == decls@[n as int].name@;
                assert(k == n as int);
            }
            assert forall|j: int| 0 <= j < n + 1 implies (#[trigger] resolved@[j]) is Some by {
                if j < n {
                    assert(before[j] is Some);
                }
            }
        }
        n += 1;
    }
    proof {
        lemma_resolved_refs_declared(decls@, resolved@, symbol_table.view());
        lemma_all_resolved_no_cycle(decls@, resolved@);
    }
    Ok(resolved)
}

/// When every set is resolved as its declaration says, every set that a
/// declaration refers to is declared.
proof fn lemma_resolved_refs_declared(decls: Seq<SetDecl>, res: Seq<Option<ResolvedSet>>, symbols: Seq<Seq<char>>)
    requires
        res.len() == decls.len(),
        all_resolved(res),
        all_entries_ok(decls, res, symbols),
    ensures
        refs_declared(decls),
{
    assert forall|n: Seq<char>| #[trigger] referenced(decls, n) implies decl_index(decls, n) is Some by {
        let (i, j) = choose|i: int, j: int| 0 <= i < decls.len() && 0 <= j < decls[i].terms@.len()
            && term_refers(#[trigger] decls[i].terms@[j], n);
        assert(res[i] is Some);
        assert(entry_ok(decls, res, i, symbols));
        let ts = decls[i].terms@;
        assert(refs_resolved(ts, ts.len(), decls, res));
        match ts[j] {
            UnionTerm::SetRef(r) => {},
            UnionTerm::Inline(_) => {},
        }
    }
}

/// The `(outer, inner)` index pairs for which a `From<inner>` conversion
/// into `outer` exists: distinct sets whose inner members are all outer
/// members, in row-major order.
pub open spec fn is_from_pair(resolved: Seq<Option<ResolvedSet>>, outer: int, inner: int) -> bool {
    &&& 0 <= outer < resolved.len()
    &&& 0 <= inner < resolved.len()
    &&& outer != inner
    &&& resolved[inner]->0.members.view().subset_of(resolved[outer]->0.members.view())
}

/// Lists every pair of distinct resolved sets where the inner set's members
/// are all members of the outer set.
pub fn from_impl_pairs(resolved: &Vec<Option<ResolvedSet>>) -> (pairs: Vec<(usize, usize)>)
    requires
        all_resolved(resolved@),
    ensures
        forall|q: int| 0 <= q < pairs@.len() ==> is_from_pair(resolved@, (#[trigger] pairs@[q]).0 as int, pairs@[q].1 as int),
        forall|o: int, i: int| is_from_pair(resolved@, o, i) ==> exists|q: int| 0 <= q < pairs@.len() && (#[trigger] pairs@[q]) == (o as usize, i as usize),
{
    let mut pairs: Vec<(usize, usize)> = Vec::new();
    let n = resolved.len();
    let mut o: usize = 0;
    while o < n
        invariant
            n == resolved@.len(),
            all_resolved(resolved@),
            o <= n,
            forall|q: int| 0 <= q < pairs@.len() ==> is_from_pair(resolved@, (#[trigger] pairs@[q]).0 as int, pairs@[q].1 as int),
            forall|a: int, b: int| 0 <= a < o && is_from_pair(resolved@, a, b) ==> exists|q: int| 0 <= q < pairs@.len() && (#[trigger] pairs@[q]) == (a as usize, b as usize),
        decreases n - o,
    {
        let mut i: usize = 0;
        while i < n
            invariant
                n == resolved@.len(),
                all_resolved(resolved@),
                o < n,
                i <= n,
                forall|q: int| 0 <= q < pairs@.len() ==> is_from_pair(resolved@, (#[trigger] pairs@[q]).0 as int, pairs@[q].1 as int),
                forall|a: int, b: int| (0 <= a < o || (a == o && 0 <= b < i)) && is_from_pair(resolved@, a, b) ==> exists|q: int| 0 <= q < pairs@.len() && (#[trigger] pairs@[q]) == (a as usize, b as usize),
            decreases n - i,
        {
            if i != o {
                let outer = match &resolved[o] {
                    Some(s) => s,
                    None => {
                        assert(resolved@[o as int] is Some);
                        return pairs;
                    },
                };
                let inner = match &resolved[i] {
                    Some(s) => s,
                    None => {
                        assert(resolved@[i as int] is Some);
                        return pairs;
                    },
                };
                if inner.members.is_subset_of(&outer.members) {
                    let ghost p0 = pairs@;
                    pairs.push((o, i));
                    proof {
                        assert forall|a: int, b: int| (0 <= a < o || (a == o && 0 <= b < i + 1)) && is_from_pair(resolved@, a, b)
                            implies exists|q: int| 0 <= q < pairs@.len() && (#[trigger] pairs@[q]) == (a as usize, b as usize) by {
                            if a == o && b == i {
                                assert(pairs@[p0.len() as int] == (a as usize, b as usize));
                            } else {
                                let q = choose|q: int| 0 <= q < p0.len() && (#[trigger] p0[q]) == (a as usize, b as usize);
                                assert(pairs@[q] == p0[q]);
                            }
                        }
                    }
                }
            }
            i += 1;
        }
        o += 1;
    }
    pairs
}

/// Whether some variant has signature `sig`.
pub open spec fn has_signature(vs: Seq<ResolvedVariant>, sig: Seq<char>) -> bool {
    exists|j: int| 0 <= j < vs.len() && (#[trigger] vs[j]).signature@ == sig
}

/// For variants built over one symbol table, one set's members lie within
/// another's exactly when each of its variant signatures is also a variant
/// signature of the other.
pub proof fn law_members_subset_iff_signatures(
    inner: Seq<ResolvedVariant>,
    inner_members: Set<nat>,
    outer: Seq<ResolvedVariant>,
    outer_members: Set<nat>,
    symbols: Seq<Seq<char>>,
)
    requires
        building_ok(inner, inner_members, symbols),
        building_ok(outer, outer_members, symbols),
        distinct_keys(symbols),
    ensures
        inner_members.subset_of(outer_members) <==> forall|i: int| 0 <= i < inner.len() ==> has_signature(outer, (#[trigger] inner[i]).signature@),
{
    if inner_members.subset_of(outer_members) {
        assert forall|i: int| 0 <= i < inner.len() implies has_signature(outer, (#[trigger] inner[i]).signature@) by {
            assert(variant_ok(inner[i], symbols));
            assert(symbols_of(inner).contains(inner[i].symbol as nat));
            assert(outer_members.contains(inner[i].symbol as nat));
            let j = choose|j: int| 0 <= j < outer.len() && (#[trigger] outer[j]).symbol == inner[i].symbol as nat;
            assert(variant_ok(outer[j], symbols));
        }
    }
    if forall|i: int| 0 <= i < inner.len() ==> has_signature(outer, (#[trigger] inner[i]).signature@) {
        assert forall|b: nat| inner_members.contains(b) implies outer_members.contains(b) by {
            let i = choose|i: int| 0 <= i < inner.len() && (#[trigger] inner[i]).symbol == b;
            assert(variant_ok(inner[i], symbols));
            assert(has_signature(outer, inner[i].signature@));
            let j = choose|j: int| 0 <= j < outer.len() && (#[trigger] outer[j]).signature@ == inner[i].signature@;
            assert(variant_ok(outer[j], symbols));
            assert(outer[j].symbol == inner[i].symbol);
            assert(symbols_of(outer).contains(b));
        }
    }
}

/// Substitution replaces a type parameter wherever it stands as a whole
/// type, a named field's type after `:` included: when `tm` maps the token
/// at `i` to `r` and the token is neither beside a `::` nor a field name
/// followed by `:`, the substituted tokens hold `r` in its place.
pub proof fn law_type_parameter_is_replaced(
    t: Seq<Seq<char>>,
    i: int,
    tm: Seq<(Seq<char>, Seq<Seq<char>>)>,
    lm: Seq<(Seq<char>, Seq<char>)>,
    r: Seq<Seq<char>>,
)
    requires
        0 <= i < t.len(),
        i == 0 || t[i - 1] != "::"@,
        i + 1 == t.len() || (t[i + 1] != "::"@ && t[i + 1] != ":"@),
        exists|j: int| 0 <= j < tm.len() && tm[j].0 == t[i],
        forall|j: int| 0 <= j < tm.len() && tm[j].0 == t[i] ==> tm[j].1 == r,
    ensures
        substitute_prefix(t, (i + 1) as nat, tm, lm) == substitute_prefix(t, i as nat, tm, lm) + r,
        substitute_prefix(t, (i + 1) as nat, tm, lm).is_prefix_of(substitute(t, tm, lm)),
{
    lemma_last_key_props(tm, t[i]);
    if last_key_index(tm, t[i]) is None {
        let j = choose|j: int| 0 <= j < tm.len() && tm[j].0 == t[i];
        lemma_last_key_none_found(tm, t[i], j);
    }
    lemma_substitute_prefix_grows(t, (i + 1) as nat, t.len(), tm, lm);
}

proof fn lemma_last_key_none_found<V>(m: Seq<(Seq<char>, V)>, k: Seq<char>, j: int)
    requires
        0 <= j < m.len(),
        m[j].0 == k,
    ensures
        last_key_index(m, k) is Some,
    decreases m.len(),
{
    if m.last().0 != k {
        lemma_last_key_none_found(m.drop_last(), k, j);
    }
}

proof fn lemma_substitute_prefix_grows(
    t: Seq<Seq<char>>,
    n: nat,
    m: nat,
    tm: Seq<(Seq<char>, Seq<Seq<char>>)>,
    lm: Seq<(Seq<char>, Seq<char>)>,
)
    requires
        n <= m <= t.len(),
    ensures
        substitute_prefix(t, n, tm, lm).is_prefix_of(substitute_prefix(t, m, tm, lm)),
    decreases m - n,
{
    if n < m {
        lemma_substitute_prefix_grows(t, n, (m - 1) as nat, tm, lm);
        let a = substitute_prefix(t, n, tm, lm);
        let b = substitute_prefix(t, (m - 1) as nat, tm, lm);
        let c = substitute_prefix(t, m, tm, lm);
        assert(c == b + replace_token(t, m - 1, tm, lm));
        assert forall|k: int| 0 <= k < a.len() implies c[k] == a[k] by {
            assert(b[k] == a[k]);
        }
    }
}

/// Substitution keeps what it has no business with: a token that the type
/// map does not name, or that is a field name before `:` or a segment
/// beside `::`, stays as it is unless the lifetime map names it, and then
/// becomes the lifetime `l` it maps to.
pub proof fn law_other_tokens_are_kept(
    t: Seq<Seq<char>>,
    i: int,
    tm: Seq<(Seq<char>, Seq<Seq<char>>)>,
    lm: Seq<(Seq<char>, Seq<char>)>,
    l: Seq<char>,
)
    requires
        0 <= i < t.len(),
        (forall|j: int| 0 <= j < tm.len() ==> tm[j].0 != t[i])
            || (i > 0 && t[i - 1] == "::"@)
            || (i + 1 < t.len() && (t[i + 1] == "::"@ || t[i + 1] == ":"@)),
        forall|q: int| 0 <= q < lm.len() && lm[q].0 == t[i] ==> lm[q].1 == l,
    ensures
        (forall|j: int| 0 <= j < lm.len() ==> lm[j].0 != t[i])
            ==> substitute_prefix(t, (i + 1) as nat, tm, lm) == substitute_prefix(t, i as nat, tm, lm).push(t[i]),
        (exists|j: int| 0 <= j < lm.len() && lm[j].0 == t[i])
            ==> substitute_prefix(t, (i + 1) as nat, tm, lm) == substitute_prefix(t, i as nat, tm, lm).push(l),
{
    lemma_last_key_props(tm, t[i]);
    lemma_last_key_props(lm, t[i]);
    let before = substitute_prefix(t, i as nat, tm, lm);
    assert(substitute_prefix(t, (i + 1) as nat, tm, lm) == before + replace_token(t, i, tm, lm));
    if exists|j: int| 0 <= j < lm.len() && lm[j].0 == t[i] {
        let j = choose|j: int| 0 <= j < lm.len() && lm[j].0 == t[i];
        lemma_last_key_none_found(lm, t[i], j);
        assert(before + seq![l] =~= before.push(l));
    } else {
        assert(before + seq![t[i]] =~= before.push(t[i]));
    }
}

} // verus!
