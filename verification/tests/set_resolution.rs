use diagweave::bitset::SymbolTable;
use diagweave::set_resolver::{
    from_impl_pairs, resolve_all, GenericArg, GenericParam, ResolveError, SetDecl, SetRef,
    UnionTerm, VariantShape,
};

fn toks(s: &str) -> Vec<String> {
    s.split_whitespace().map(|t| t.to_string()).collect()
}

fn variant(name: &str, tokens: &str) -> VariantShape {
    VariantShape { name: name.to_string(), tokens: toks(tokens) }
}

fn set_ref(name: &str) -> UnionTerm {
    UnionTerm::SetRef(SetRef { name: name.to_string(), args: None })
}

fn decl(name: &str, terms: Vec<UnionTerm>) -> SetDecl {
    SetDecl { name: name.to_string(), generics: vec![], terms }
}

#[test]
fn union_of_sets_collects_variants_once() {
    let decls = vec![
        decl("Auth", vec![UnionTerm::Inline(vec![variant("InvalidToken", "InvalidToken")])]),
        decl("Db", vec![UnionTerm::Inline(vec![variant("Lost", "Lost")])]),
        decl("Api", vec![set_ref("Auth"), set_ref("Db"), set_ref("Auth")]),
    ];
    let mut symbols = SymbolTable::new();
    let resolved = resolve_all(&decls, &mut symbols).unwrap();
    let api = resolved[2].as_ref().unwrap();
    let names: Vec<&str> = api.variants.iter().map(|v| v.name.as_str()).collect();
    assert_eq!(names, vec!["InvalidToken", "Lost"]);
    assert_eq!(api.set_refs.len(), 3);
    let pairs = from_impl_pairs(&resolved);
    assert!(pairs.contains(&(2, 0)));
    assert!(pairs.contains(&(2, 1)));
    assert!(!pairs.contains(&(0, 2)));
    assert!(!pairs.contains(&(0, 1)));
}

#[test]
fn generic_arguments_are_substituted() {
    let decls = vec![
        SetDecl {
            name: "Wrap".to_string(),
            generics: vec![GenericParam::Type("T".to_string())],
            terms: vec![UnionTerm::Inline(vec![variant("Inner", "Inner ( T )")])],
        },
        decl(
            "Concrete",
            vec![UnionTerm::SetRef(SetRef {
                name: "Wrap".to_string(),
                args: Some(vec![GenericArg::Type(toks("u64"))]),
            })],
        ),
    ];
    let mut symbols = SymbolTable::new();
    let resolved = resolve_all(&decls, &mut symbols).unwrap();
    let concrete = resolved[1].as_ref().unwrap();
    assert_eq!(concrete.variants[0].signature, "Inner ( u64 )");
    assert_eq!(resolved[0].as_ref().unwrap().variants[0].signature, "Inner ( T )");
    assert!(!from_impl_pairs(&resolved).contains(&(1, 0)));
}

#[test]
fn cycles_are_reported_with_their_chain() {
    let decls = vec![decl("A", vec![set_ref("B")]), decl("B", vec![set_ref("A")])];
    let mut symbols = SymbolTable::new();
    match resolve_all(&decls, &mut symbols) {
        Err(ResolveError::Cycle(chain)) => assert_eq!(chain, vec!["A", "B", "A"]),
        other => panic!("unexpected: {:?}", other.map(|_| ())),
    }
}

#[test]
fn undefined_and_duplicate_sets() {
    let mut symbols = SymbolTable::new();
    let undefined = vec![decl("A", vec![set_ref("Missing")])];
    assert_eq!(
        resolve_all(&undefined, &mut symbols).map(|_| ()),
        Err(ResolveError::UndefinedSet("Missing".to_string()))
    );
    let mut symbols = SymbolTable::new();
    let duplicate = vec![decl("A", vec![]), decl("A", vec![])];
    assert_eq!(
        resolve_all(&duplicate, &mut symbols).map(|_| ()),
        Err(ResolveError::DuplicateSet("A".to_string()))
    );
}

#[test]
fn same_name_with_other_shape_is_refused() {
    let decls = vec![
        decl("A", vec![UnionTerm::Inline(vec![variant("V", "V ( u8 )")])]),
        decl("B", vec![set_ref("A"), UnionTerm::Inline(vec![variant("V", "V ( u16 )")])]),
    ];
    let mut symbols = SymbolTable::new();
    assert_eq!(
        resolve_all(&decls, &mut symbols).map(|_| ()),
        Err(ResolveError::ShapeConflict("V".to_string()))
    );
}

#[test]
fn set_references_are_recorded_with_substitution() {
    let decls = vec![
        SetDecl {
            name: "A".to_string(),
            generics: vec![GenericParam::Type("T".to_string())],
            terms: vec![UnionTerm::Inline(vec![variant("Wrap", "Wrap ( T )")])],
        },
        SetDecl {
            name: "B".to_string(),
            generics: vec![GenericParam::Type("U".to_string())],
            terms: vec![UnionTerm::SetRef(SetRef {
                name: "A".to_string(),
                args: Some(vec![GenericArg::Type(toks("U"))]),
            })],
        },
        decl(
            "C",
            vec![UnionTerm::SetRef(SetRef {
                name: "B".to_string(),
                args: Some(vec![GenericArg::Type(toks("u32"))]),
            })],
        ),
    ];
    let mut symbols = SymbolTable::new();
    let resolved = resolve_all(&decls, &mut symbols).unwrap();
    let b = resolved[1].as_ref().unwrap();
    assert_eq!(b.set_refs.len(), 1);
    assert_eq!(b.set_refs[0].name, "A");
    let c = resolved[2].as_ref().unwrap();
    assert_eq!(c.set_refs.len(), 2);
    assert_eq!(c.set_refs[0].name, "B");
    assert_eq!(c.set_refs[1].name, "A");
    match &c.set_refs[1].args {
        Some(args) => match &args[0] {
            GenericArg::Type(t) => assert_eq!(t, &vec!["u32".to_string()]),
            _ => panic!("expected a type argument"),
        },
        None => panic!("expected arguments"),
    }
    assert_eq!(c.variants[0].signature, "Wrap ( u32 )");
    assert_eq!(resolved[0].as_ref().unwrap().variants[0].signature, "Wrap ( T )");
}
