//! The decisions of the `set!`, `union!` and derive macros, taken on the
//! plain content of their input: display modes, union variants and their
//! `From` conversions, derive lists, and `#[diagweave(..)]` options.

use vstd::prelude::*;
use crate::text::str_eq;
use crate::naming::{is_valid_constructor_prefix, valid_constructor_prefix};
use crate::variant_model::{FieldsShape};

verus! {

/// The argument of a `#[display(..)]` attribute.
#[derive(Debug, Clone, PartialEq, Eq)]
pub enum DisplayArg {
    /// A string literal template.
    Template(String),
    /// A bare identifier.
    Ident(String),
    /// Something that is neither.
    Malformed,
}

/// How a variant is displayed.
#[derive(Debug, Clone, PartialEq, Eq)]
pub enum DisplayMode {
    /// `Enum::Variant`.
    Default,
    /// A template over the variant's fields.
    Template(String),
    /// The single field's own display.
    Transparent,
}

/// Why `#[display(..)]` attributes were refused.
#[derive(Debug, Clone, Copy, PartialEq, Eq, Structural)]
pub enum DisplayError {
    /// An identifier other than `transparent`.
    Unsupported,
    /// An argument that is neither a string nor an identifier.
    Malformed,
    /// More than one `#[display(..)]`.
    Duplicate,
    /// No `#[display(..)]` where one is required.
    Missing,
    /// `transparent` on a variant without exactly one tuple field.
    TransparentNeedsOneField,
}

/// What one `#[display(..)]` argument means.
pub open spec fn display_arg_mode(a: DisplayArg) -> Result<DisplayMode, DisplayError> {
    match a {
        DisplayArg::Template(t) => Ok(DisplayMode::Template(t)),
        DisplayArg::Ident(i) => if i@ == "transparent"@ { Ok(DisplayMode::Transparent) } else { Err(DisplayError::Unsupported) },
        DisplayArg::Malformed => Err(DisplayError::Malformed),
    }
}

/// The display mode of the first `n` display attributes, or the first
/// error: each argument is read first, then a second attribute is refused.
pub open spec fn display_mode_of(args: Seq<DisplayArg>, n: nat) -> Result<DisplayMode, DisplayError>
    decreases n,
{
    if n == 0 || n > args.len() {
        Ok(DisplayMode::Default)
    } else {
        match display_mode_of(args, (n - 1) as nat) {
            Err(e) => Err(e),
            Ok(mode) => match display_arg_mode(args[n - 1]) {
                Err(e) => Err(e),
                Ok(parsed) => if mode != DisplayMode::Default { Err(DisplayError::Duplicate) } else { Ok(parsed) },
            },
        }
    }
}

proof fn lemma_display_err(args: Seq<DisplayArg>, k: nat, m: nat)
    requires
        display_mode_of(args, k) is Err,
        k <= m <= args.len(),
    ensures
        display_mode_of(args, m) == display_mode_of(args, k),
    decreases m - k,
{
    if k < m {
        lemma_display_err(args, k, (m - 1) as nat);
    }
}

fn arg_mode(a: &DisplayArg) -> (r: Result<DisplayMode, DisplayError>)
    ensures
        match (r, display_arg_mode(*a)) {
            (Ok(DisplayMode::Template(x)), Ok(DisplayMode::Template(y))) => x@ == y@,
            (Ok(x), Ok(y)) => x == y,
            (Err(x), Err(y)) => x == y,
            _ => false,
        },
{
    match a {
        DisplayArg::Template(t) => Ok(DisplayMode::Template(t.clone())),
        DisplayArg::Ident(i) => {
            if str_eq(i.as_str(), "transparent") {
                Ok(DisplayMode::Transparent)
            } else {
                Err(DisplayError::Unsupported)
            }
        },
        DisplayArg::Malformed => Err(DisplayError::Malformed),
    }
}

/// The display mode of a variant from the arguments of its `#[display(..)]`
/// attributes, in order.
pub fn parse_display_mode(args: &Vec<DisplayArg>) -> (r: Result<DisplayMode, DisplayError>)
    ensures
        match (r, display_mode_of(args@, args@.len())) {
            (Ok(DisplayMode::Template(x)), Ok(DisplayMode::Template(y))) => x@ == y@,
            (Ok(x), Ok(y)) => x == y,
            (Err(x), Err(y)) => x == y,
            _ => false,
        },
{
    let mut mode = DisplayMode::Default;
    let mut i: usize = 0;
    while i < args.len()
        invariant
            i <= args@.len(),
            match (mode, display_mode_of(args@, i as nat)) {
                (DisplayMode::Template(x), Ok(DisplayMode::Template(y))) => x@ == y@,
                (x, Ok(y)) => x == y,
                _ => false,
            },
        decreases args@.len() - i,
    {
        let parsed = arg_mode(&args[i]);
        match parsed {
            Err(e) => {
                proof { lemma_display_err(args@, (i + 1) as nat, args@.len()); }
                return Err(e);
            },
            Ok(p) => {
                let is_default = match mode {
                    DisplayMode::Default => true,
                    _ => false,
                };
                if !is_default {
                    proof { lemma_display_err(args@, (i + 1) as nat, args@.len()); }
                    return Err(DisplayError::Duplicate);
                }
                mode = p;
            },
        }
        i += 1;
    }
    Ok(mode)
}

/// The display of a standalone error: its single `#[display(..)]`, which
/// must be present.
pub fn parse_error_display(args: &Vec<DisplayArg>) -> (r: Result<DisplayMode, DisplayError>)
    ensures
        match (r, display_mode_of(args@, args@.len())) {
            (Ok(DisplayMode::Template(x)), Ok(DisplayMode::Template(y))) => x@ == y@,
            (Ok(x), Ok(y)) => x == y && y != DisplayMode::Default,
            (Err(DisplayError::Missing), Ok(y)) => y == DisplayMode::Default,
            (Err(x), Err(y)) => x == y,
            _ => false,
        },
{
    match parse_display_mode(args) {
        Ok(DisplayMode::Default) => Err(DisplayError::Missing),
        other => other,
    }
}

/// Checks that `transparent` is used on exactly one tuple field.
pub fn check_transparent(mode: &DisplayMode, shape: &FieldsShape) -> (r: Result<(), DisplayError>)
    ensures
        r is Err <==> (*mode == DisplayMode::Transparent && *shape != FieldsShape::Unnamed(1)),
        r matches Err(e) ==> e == DisplayError::TransparentNeedsOneField,
{
    match mode {
        DisplayMode::Transparent => match shape {
            FieldsShape::Unnamed(k) => {
                if *k == 1 {
                    Ok(())
                } else {
                    Err(DisplayError::TransparentNeedsOneField)
                }
            },
            _ => Err(DisplayError::TransparentNeedsOneField),
        },
        _ => Ok(()),
    }
}

/// A term of a `union!`: an outside error type (its token text, the last
/// segment of its path, and an optional alias), or inline variants.
#[derive(Debug, Clone, PartialEq, Eq)]
pub enum UnionItem {
    External { type_text: String, last_segment: Option<String>, alias: Option<String> },
    Inline(Vec<InlineVariant>),
}

/// An inline variant of a `union!`: its name, and the token text of its
/// source type when it is a `#[from]` variant.
#[derive(Debug, Clone, PartialEq, Eq)]
pub struct InlineVariant {
    pub name: String,
    pub from_source: Option<String>,
}

/// A variant that a `union!` generates: its name, whether it wraps an
/// outside type, and the source type it converts from.
#[derive(Debug, Clone, PartialEq, Eq)]
pub struct PlannedVariant {
    pub name: String,
    pub external: bool,
    pub from_key: Option<String>,
}

/// Why a `union!` was refused.
#[derive(Debug, Clone, PartialEq, Eq)]
pub enum UnionError {
    /// Two variants share a name.
    DuplicateVariant(String),
    /// Two variants convert from the same type.
    DuplicateFromSource(String),
}

/// A planned variant as plain values.
pub type PlanView = (Seq<char>, bool, Option<Seq<char>>);

/// The name of the variant an outside type becomes: its alias, else the
/// last segment of its path, else `Unknown`.
pub open spec fn external_name(last_segment: Option<String>, alias: Option<String>) -> Seq<char> {
    match alias {
        Some(a) => a@,
        None => match last_segment {
            Some(s) => s@,
            None => "Unknown"@,
        },
    }
}

/// The planned variants of one union item, before duplicate checks.
pub open spec fn item_plans(item: UnionItem) -> Seq<PlanView> {
    match item {
        UnionItem::External { type_text, last_segment, alias } => seq![(external_name(last_segment, alias), true, Some(type_text@))],
        UnionItem::Inline(vs) => vs@.map_values(|v: InlineVariant| (v.name@, false, match v.from_source { Some(s) => Some(s@), None => None })),
    }
}

/// Adds one planned variant: its name must be new, and so must its source
/// type when it has one.
pub open spec fn add_plan(acc: Seq<PlanView>, p: PlanView) -> Result<Seq<PlanView>, (bool, Seq<char>)> {
    if exists|i: int| 0 <= i < acc.len() && (#[trigger] acc[i]).0 == p.0 {
        Err((true, p.0))
    } else if p.2 is Some && exists|i: int| 0 <= i < acc.len() && (#[trigger] acc[i]).2 == p.2 {
        Err((false, p.2->0))
    } else {
        Ok(acc.push(p))
    }
}

/// Adds planned variants in order, failing at the first duplicate.
pub open spec fn add_plans(acc: Seq<PlanView>, ps: Seq<PlanView>) -> Result<Seq<PlanView>, (bool, Seq<char>)>
    decreases ps.len(),
{
    if ps.len() == 0 {
        Ok(acc)
    } else {
        match add_plans(acc, ps.drop_last()) {
            Err(e) => Err(e),
            Ok(a) => add_plan(a, ps.last()),
        }
    }
}

/// The planned variants of the first `n` items.
pub open spec fn all_item_plans(items: Seq<UnionItem>, n: nat) -> Seq<PlanView>
    decreases n,
{
    if n == 0 || n > items.len() {
        Seq::empty()
    } else {
        all_item_plans(items, (n - 1) as nat) + item_plans(items[n - 1])
    }
}

/// A planned variant as plain values.
pub open spec fn plan_view(p: PlannedVariant) -> PlanView {
    (p.name@, p.external, match p.from_key { Some(s) => Some(s@), None => None })
}

/// An error as plain values: whether it is about a name, and the text.
pub open spec fn union_error_view(e: UnionError) -> (bool, Seq<char>) {
    match e {
        UnionError::DuplicateVariant(n) => (true, n@),
        UnionError::DuplicateFromSource(k) => (false, k@),
    }
}

proof fn lemma_add_plans_append(acc: Seq<PlanView>, a: Seq<PlanView>, b: Seq<PlanView>)
    ensures
        add_plans(acc, a + b) == (match add_plans(acc, a) {
            Ok(x) => add_plans(x, b),
            Err(e) => Err(e),
        }),
    decreases b.len(),
{
    if b.len() == 0 {
        assert(a + b =~= a);
    } else {
        lemma_add_plans_append(acc, a, b.drop_last());
        assert((a + b).drop_last() =~= a + b.drop_last());
        assert((a + b).last() == b.last());
    }
}

proof fn lemma_add_plans_err(acc: Seq<PlanView>, a: Seq<PlanView>, b: Seq<PlanView>)
    requires
        add_plans(acc, a) is Err,
    ensures
        add_plans(acc, a + b) == add_plans(acc, a),
{
    lemma_add_plans_append(acc, a, b);
}

fn opt_eq(a: &Option<String>, b: &Option<String>) -> (r: bool)
    ensures
        r == (match (a, b) {
            (Some(x), Some(y)) => x@ == y@,
            (None, None) => true,
            _ => false,
        }),
{
    match (a, b) {
        (Some(x), Some(y)) => str_eq(x.as_str(), y.as_str()),
        (None, None) => true,
        _ => false,
    }
}

fn add_planned(out: &mut Vec<PlannedVariant>, p: PlannedVariant) -> (r: Result<(), UnionError>)
    ensures
        match add_plan(old(out)@.map_values(|q: PlannedVariant| plan_view(q)), plan_view(p)) {
            Ok(x) => r is Ok && final(out)@.map_values(|q: PlannedVariant| plan_view(q)) == x,
            Err(e) => r matches Err(u) && union_error_view(u) == e,
        },
{
    let ghost acc = out@.map_values(|q: PlannedVariant| plan_view(q));
    let mut i: usize = 0;
    while i < out.len()
        invariant
            acc == out@.map_values(|q: PlannedVariant| plan_view(q)),
            i <= out@.len(),
            forall|j: int| 0 <= j < i ==> acc[j].0 != plan_view(p).0,
        decreases out@.len() - i,
    {
        if str_eq(out[i].name.as_str(), p.name.as_str()) {
            assert(acc[i as int].0 == plan_view(p).0);
            return Err(UnionError::DuplicateVariant(p.name));
        }
        i += 1;
    }
    if p.from_key.is_some() {
        let mut k: usize = 0;
        while k < out.len()
            invariant
                acc == out@.map_values(|q: PlannedVariant| plan_view(q)),
                k <= out@.len(),
                p.from_key is Some,
                forall|j: int| 0 <= j < out@.len() ==> acc[j].0 != plan_view(p).0,
                forall|j: int| 0 <= j < k ==> acc[j].2 != plan_view(p).2,
            decreases out@.len() - k,
        {
            if opt_eq(&out[k].from_key, &p.from_key) {
                assert(acc[k as int].2 == plan_view(p).2);
                let key = match p.from_key {
                    Some(key) => key,
                    None => String::new(),
                };
                return Err(UnionError::DuplicateFromSource(key));
            }
            k += 1;
        }
    }
    let ghost pv = plan_view(p);
    out.push(p);
    assert(out@.map_values(|q: PlannedVariant| plan_view(q)) =~= acc.push(pv));
    Ok(())
}

/// Plans the variants of a `union!`: outside types become tuple variants
/// named by alias or last path segment, inline variants keep their names;
/// names must be unique, and so must the types converted from.
pub fn plan_union(items: &Vec<UnionItem>) -> (r: Result<Vec<PlannedVariant>, UnionError>)
    ensures
        match add_plans(Seq::empty(), all_item_plans(items@, items@.len())) {
            Ok(x) => r matches Ok(v) && v@.map_values(|q: PlannedVariant| plan_view(q)) == x,
            Err(e) => r matches Err(u) && union_error_view(u) == e,
        },
{
    let mut out: Vec<PlannedVariant> = Vec::new();
    let mut t: usize = 0;
    assert(out@.map_values(|q: PlannedVariant| plan_view(q)) =~= Seq::<PlanView>::empty());
    while t < items.len()
        invariant
            t <= items@.len(),
            add_plans(Seq::empty(), all_item_plans(items@, t as nat)) == Ok::<Seq<PlanView>, (bool, Seq<char>)>(out@.map_values(|q: PlannedVariant| plan_view(q))),
        decreases items@.len() - t,
    {
        let ghost before = out@.map_values(|q: PlannedVariant| plan_view(q));
        let ghost ps = item_plans(items@[t as int]);
        proof {
            lemma_add_plans_append(Seq::empty(), all_item_plans(items@, t as nat), ps);
            assert(all_item_plans(items@, t as nat + 1) == all_item_plans(items@, t as nat) + ps);
        }
        match &items[t] {
            UnionItem::External { type_text, last_segment, alias } => {
                let name = match alias {
                    Some(a) => a.clone(),
                    None => match last_segment {
                        Some(s) => s.clone(),
                        None => "Unknown".to_string(),
                    },
                };
                let p = PlannedVariant { name, external: true, from_key: Some(type_text.clone()) };
                proof {
                    assert(ps =~= seq![plan_view(p)]);
                    lemma_add_plans_single(before, plan_view(p));
                }
                let res = add_planned(&mut out, p);
                if res.is_err() {
                    proof {
                        lemma_plans_err_reaches_end(items@, t as nat + 1);
                    }
                    return Err(res.unwrap_err());
                }
            },
            UnionItem::Inline(vs) => {
                let mut j: usize = 0;
                while j < vs.len()
                    invariant
                        j <= vs@.len(),
                        t < items@.len(),
                        ps == item_plans(items@[t as int]),
                        items@[t as int] == UnionItem::Inline(*vs),
                        add_plans(Seq::empty(), all_item_plans(items@, t as nat + 1)) == add_plans(before, ps),
                        add_plans(before, ps.subrange(0, j as int)) == Ok::<Seq<PlanView>, (bool, Seq<char>)>(out@.map_values(|q: PlannedVariant| plan_view(q))),
                    decreases vs@.len() - j,
                {
                    let v = &vs[j];
                    let p = PlannedVariant {
                        name: v.name.clone(),
                        external: false,
                        from_key: match &v.from_source {
                            Some(s) => Some(s.clone()),
                            None => None,
                        },
                    };
                    assert(plan_view(p) == ps[j as int]);
                    assert(ps.subrange(0, j as int + 1).drop_last() =~= ps.subrange(0, j as int));
                    let res = add_planned(&mut out, p);
                    if res.is_err() {
                        proof {
                            lemma_add_plans_err(before, ps.subrange(0, j as int + 1), ps.subrange(j as int + 1, ps.len() as int));
                            assert(ps.subrange(0, j as int + 1) + ps.subrange(j as int + 1, ps.len() as int) =~= ps);
                            lemma_plans_err_reaches_end(items@, t as nat + 1);
                        }
                        return Err(res.unwrap_err());
                    }
                    j += 1;
                }
                assert(ps.subrange(0, vs@.len() as int) =~= ps);
            },
        }
        t += 1;
    }
    Ok(out)
}

proof fn lemma_add_plans_single(acc: Seq<PlanView>, p: PlanView)
    ensures
        add_plans(acc, seq![p]) == add_plan(acc, p),
{
    assert(seq![p].drop_last() =~= Seq::<PlanView>::empty());
    assert(add_plans(acc, Seq::<PlanView>::empty()) == Ok::<Seq<PlanView>, (bool, Seq<char>)>(acc));
}

proof fn lemma_plans_err_reaches_end(items: Seq<UnionItem>, k: nat)
    requires
        k <= items.len(),
        add_plans(Seq::empty(), all_item_plans(items, k)) is Err,
    ensures
        add_plans(Seq::empty(), all_item_plans(items, items.len())) == add_plans(Seq::empty(), all_item_plans(items, k)),
{
    lemma_all_plans_prefix(items, k, items.len());
    let a = all_item_plans(items, k);
    let c = all_item_plans(items, items.len());
    lemma_add_plans_err(Seq::empty(), a, c.subrange(a.len() as int, c.len() as int));
}

proof fn lemma_all_plans_prefix(items: Seq<UnionItem>, k: nat, m: nat)
    requires
        k <= m <= items.len(),
    ensures
        all_item_plans(items, k).len() <= all_item_plans(items, m).len(),
        all_item_plans(items, m) == all_item_plans(items, k) + all_item_plans(items, m).subrange(all_item_plans(items, k).len() as int, all_item_plans(items, m).len() as int),
    decreases m - k,
{
    if k < m {
        lemma_all_plans_prefix(items, k, (m - 1) as nat);
        let a = all_item_plans(items, k);
        let b = all_item_plans(items, (m - 1) as nat);
        let c = all_item_plans(items, m);
        assert(c == b + item_plans(items[m - 1]));
        assert(c =~= a + c.subrange(a.len() as int, c.len() as int));
    } else {
        let a = all_item_plans(items, k);
        assert(a =~= a + a.subrange(a.len() as int, a.len() as int));
    }
}

/// The derive paths of an enum: those listed in its `#[derive(..)]`
/// attributes, each once in order of first mention, and `Debug` added when
/// none of them is `Debug`.
pub open spec fn merged_derives(paths: Seq<Seq<char>>) -> Seq<Seq<char>> {
    let unique = dedup(paths, paths.len());
    if unique.contains("Debug"@) { unique } else { unique.push("Debug"@) }
}

/// The first `n` items, each kept at its first occurrence.
pub open spec fn dedup(s: Seq<Seq<char>>, n: nat) -> Seq<Seq<char>>
    decreases n,
{
    if n == 0 || n > s.len() {
        Seq::empty()
    } else {
        let prev = dedup(s, (n - 1) as nat);
        if prev.contains(s[n - 1]) { prev } else { prev.push(s[n - 1]) }
    }
}

fn contains_text(v: &Vec<String>, x: &str) -> (r: bool)
    ensures
        r == v@.map_values(|s: String| s@).contains(x@),
{
    let ghost vv = v@.map_values(|s: String| s@);
    let mut i: usize = 0;
    while i < v.len()
        invariant
            vv == v@.map_values(|s: String| s@),
            i <= v@.len(),
            forall|j: int| 0 <= j < i ==> vv[j] != x@,
        decreases v@.len() - i,
    {
        if str_eq(v[i].as_str(), x) {
            assert(vv[i as int] == x@);
            return true;
        }
        i += 1;
    }
    false
}

/// Merges the paths of an enum's derive attributes, making sure `Debug` is
/// among them.
pub fn merge_debug_derive(paths: &Vec<String>) -> (merged: Vec<String>)
    ensures
        merged@.map_values(|s: String| s@) == merged_derives(paths@.map_values(|s: String| s@)),
{
    let ghost pv = paths@.map_values(|s: String| s@);
    let mut out: Vec<String> = Vec::new();
    let mut i: usize = 0;
    while i < paths.len()
        invariant
            pv == paths@.map_values(|s: String| s@),
            i <= paths@.len(),
            out@.map_values(|s: String| s@) == dedup(pv, i as nat),
        decreases paths@.len() - i,
    {
        if !contains_text(&out, paths[i].as_str()) {
            let ghost o = out@;
            let x = paths[i].clone();
            out.push(x);
            assert(out@.map_values(|s: String| s@) =~= o.map_values(|s: String| s@).push(x@));
        }
        i += 1;
    }
    if !contains_text(&out, "Debug") {
        let ghost o = out@;
        let x = "Debug".to_string();
        out.push(x);
        assert(out@.map_values(|s: String| s@) =~= o.map_values(|s: String| s@).push(x@));
    }
    out
}

/// An entry of a `#[diagweave(..)]` attribute: its key and string value.
#[derive(Debug, Clone, PartialEq, Eq)]
pub struct OptionEntry {
    pub key: String,
    pub value: String,
}

/// The options of the derive and set macros: the report type path (as
/// text) and the constructor prefix.
#[derive(Debug, Clone, PartialEq, Eq)]
pub struct DiagweaveOptions {
    pub report_path: String,
    pub constructor_prefix: String,
}

/// Why `#[diagweave(..)]` was refused.
#[derive(Debug, Clone, Copy, PartialEq, Eq, Structural)]
pub enum OptionError {
    /// `report_path` is not a Rust type path.
    InvalidReportPath,
    /// `constructor_prefix` is not a snake-case fragment.
    InvalidConstructorPrefix,
    /// A key other than `report_path` and `constructor_prefix`.
    UnknownOption,
}

/// Whether text parses as a Rust path, by syn's grammar.
pub uninterp spec fn parses_as_path(text: Seq<char>) -> bool;

/// Calls `syn::parse_str::<syn::Path>` and reports whether the text parsed.
/// Claimed: the answer is a function of the text alone (syn's parser is
/// deterministic); what that function is, syn's grammar decides.
#[verifier::external_body]
fn is_path_text(text: &str) -> (r: bool)
    ensures
        r == parses_as_path(text@),
{
    syn::parse_str::<syn::Path>(text).is_ok()
}

/// The default report type path.
pub open spec fn default_report_path() -> Seq<char> {
    "::diagweave::report::Report"@
}

/// The options after the first `n` entries, or the first error.
pub open spec fn options_of(entries: Seq<OptionEntry>, n: nat) -> Result<(Seq<char>, Seq<char>), OptionError>
    decreases n,
{
    if n == 0 || n > entries.len() {
        Ok((default_report_path(), Seq::empty()))
    } else {
        match options_of(entries, (n - 1) as nat) {
            Err(e) => Err(e),
            Ok((path, prefix)) => {
                let e = entries[n - 1];
                if e.key@ == "report_path"@ {
                    if parses_as_path(e.value@) { Ok((e.value@, prefix)) } else { Err(OptionError::InvalidReportPath) }
                } else if e.key@ == "constructor_prefix"@ {
                    if valid_constructor_prefix(e.value@) { Ok((path, e.value@)) } else { Err(OptionError::InvalidConstructorPrefix) }
                } else {
                    Err(OptionError::UnknownOption)
                }
            },
        }
    }
}

proof fn lemma_options_err(entries: Seq<OptionEntry>, k: nat, m: nat)
    requires
        options_of(entries, k) is Err,
        k <= m <= entries.len(),
    ensures
        options_of(entries, m) == options_of(entries, k),
    decreases m - k,
{
    if k < m {
        lemma_options_err(entries, k, (m - 1) as nat);
    }
}

/// Reads the entries of `#[diagweave(..)]` attributes in order: a later
/// value of a key replaces an earlier one.
pub fn parse_diagweave_options(entries: &Vec<OptionEntry>) -> (r: Result<DiagweaveOptions, OptionError>)
    ensures
        match (r, options_of(entries@, entries@.len())) {
            (Ok(o), Ok((path, prefix))) => o.report_path@ == path && o.constructor_prefix@ == prefix,
            (Err(x), Err(y)) => x == y,
            _ => false,
        },
{
    let mut options = DiagweaveOptions { report_path: "::diagweave::report::Report".to_string(), constructor_prefix: String::new() };
    let mut i: usize = 0;
    while i < entries.len()
        invariant
            i <= entries@.len(),
            options_of(entries@, i as nat) == Ok::<(Seq<char>, Seq<char>), OptionError>((options.report_path@, options.constructor_prefix@)),
        decreases entries@.len() - i,
    {
        let e = &entries[i];
        if str_eq(e.key.as_str(), "report_path") {
            if !is_path_text(e.value.as_str()) {
                proof { lemma_options_err(entries@, (i + 1) as nat, entries@.len()); }
                return Err(OptionError::InvalidReportPath);
            }
            options.report_path = e.value.clone();
        } else if str_eq(e.key.as_str(), "constructor_prefix") {
            if !is_valid_constructor_prefix(e.value.as_str()) {
                proof { lemma_options_err(entries@, (i + 1) as nat, entries@.len()); }
                return Err(OptionError::InvalidConstructorPrefix);
            }
            options.constructor_prefix = e.value.clone();
        } else {
            proof { lemma_options_err(entries@, (i + 1) as nat, entries@.len()); }
            return Err(OptionError::UnknownOption);
        }
        i += 1;
    }
    Ok(options)
}

/// No two planned variants share a name, and no two share a source type.
pub open spec fn plans_distinct(s: Seq<PlanView>) -> bool {
    forall|i: int, j: int| 0 <= i < j < s.len() ==> (#[trigger] s[i]).0 != (#[trigger] s[j]).0 && (s[j].2 is Some ==> s[i].2 != s[j].2)
}

proof fn lemma_add_plans_distinct(acc: Seq<PlanView>, ps: Seq<PlanView>)
    requires
        plans_distinct(acc),
    ensures
        add_plans(acc, ps) matches Ok(x) ==> plans_distinct(x),
    decreases ps.len(),
{
    if ps.len() > 0 {
        lemma_add_plans_distinct(acc, ps.drop_last());
        match add_plans(acc, ps.drop_last()) {
            Ok(a) => {
                let p = ps.last();
                if add_plan(a, p) is Ok {
                    let x = a.push(p);
                    assert forall|i: int, j: int| 0 <= i < j < x.len() implies (#[trigger] x[i]).0 != (#[trigger] x[j]).0 && (x[j].2 is Some ==> x[i].2 != x[j].2) by {
                        if j == a.len() {
                            assert(x[i] == a[i]);
                        } else {
                            assert(x[i] == a[i] && x[j] == a[j]);
                        }
                    }
                }
            },
            Err(_) => {},
        }
    }
}

/// A planned union never has two variants of one name, nor two variants
/// converting from one type.
pub proof fn law_planned_variants_distinct(items: Seq<UnionItem>)
    ensures
        add_plans(Seq::empty(), all_item_plans(items, items.len())) matches Ok(x) ==> plans_distinct(x),
{
    lemma_add_plans_distinct(Seq::empty(), all_item_plans(items, items.len()));
}

proof fn lemma_dedup(s: Seq<Seq<char>>, n: nat)
    requires
        n <= s.len(),
    ensures
        forall|i: int, j: int| 0 <= i < j < dedup(s, n).len() ==> dedup(s, n)[i] != dedup(s, n)[j],
        forall|i: int| 0 <= i < n ==> dedup(s, n).contains(#[trigger] s[i]),
        forall|x: Seq<char>| dedup(s, n).contains(x) ==> s.take(n as int).contains(x),
    decreases n,
{
    if n > 0 {
        lemma_dedup(s, (n - 1) as nat);
        let prev = dedup(s, (n - 1) as nat);
        let d = dedup(s, n);
        assert(s.take(n as int) =~= s.take(n - 1).push(s[n - 1]));
        if !prev.contains(s[n - 1]) {
            assert(d == prev.push(s[n - 1]));
            assert forall|i: int, j: int| 0 <= i < j < d.len() implies d[i] != d[j] by {
                if j == prev.len() {
                    assert(d[i] == prev[i]);
                    assert(prev.contains(prev[i]));
                }
            }
            assert forall|i: int| 0 <= i < n implies d.contains(#[trigger] s[i]) by {
                if i < n - 1 {
                    let k = choose|k: int| 0 <= k < prev.len() && prev[k] == s[i];
                    assert(d[k] == s[i]);
                } else {
                    assert(d[prev.len() as int] == s[i]);
                }
            }
            assert forall|x: Seq<char>| d.contains(x) implies s.take(n as int).contains(x) by {
                let k = choose|k: int| 0 <= k < d.len() && d[k] == x;
                if k < prev.len() {
                    assert(prev[k] == x);
                    assert(prev.contains(x));
                    let m = choose|m: int| 0 <= m < s.take(n - 1).len() && #[trigger] s.take(n - 1)[m] == x;
                    assert(s.take(n as int)[m] == x);
                } else {
                    assert(s.take(n as int)[n - 1] == x);
                }
            }
        } else {
            assert forall|x: Seq<char>| d.contains(x) implies s.take(n as int).contains(x) by {
                let m = choose|m: int| 0 <= m < s.take(n - 1).len() && #[trigger] s.take(n - 1)[m] == x;
                assert(s.take(n as int)[m] == x);
            }
        }
    }
}

/// The merged derive list names `Debug`, names every derive of the input,
/// names nothing else, and names nothing twice.
pub proof fn law_merged_derives(paths: Seq<Seq<char>>)
    ensures
        merged_derives(paths).contains("Debug"@),
        forall|i: int| 0 <= i < paths.len() ==> merged_derives(paths).contains(#[trigger] paths[i]),
        forall|x: Seq<char>| merged_derives(paths).contains(x) ==> x == "Debug"@ || paths.contains(x),
        forall|i: int, j: int| 0 <= i < j < merged_derives(paths).len() ==> merged_derives(paths)[i] != merged_derives(paths)[j],
{
    lemma_dedup(paths, paths.len());
    let u = dedup(paths, paths.len());
    assert(paths.take(paths.len() as int) =~= paths);
    if !u.contains("Debug"@) {
        let m = u.push("Debug"@);
        assert(m[u.len() as int] == "Debug"@);
        assert forall|i: int| 0 <= i < paths.len() implies m.contains(#[trigger] paths[i]) by {
            let k = choose|k: int| 0 <= k < u.len() && u[k] == paths[i];
            assert(m[k] == paths[i]);
        }
        assert forall|x: Seq<char>| m.contains(x) implies x == "Debug"@ || paths.contains(x) by {
            let k = choose|k: int| 0 <= k < m.len() && m[k] == x;
            if k < u.len() {
                assert(u[k] == x);
                assert(u.contains(x));
            }
        }
        assert forall|i: int, j: int| 0 <= i < j < m.len() implies m[i] != m[j] by {
            if j == u.len() {
                assert(m[i] == u[i]);
                assert(u.contains(u[i]));
            }
        }
    }
}

} // verus!
