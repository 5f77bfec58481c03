use diagweave::macro_plan::{
    check_transparent, merge_debug_derive, parse_diagweave_options, parse_display_mode, parse_error_display, plan_union,
    DisplayArg, DisplayError, DisplayMode, InlineVariant, OptionEntry, OptionError, PlannedVariant, UnionError, UnionItem,
};
use diagweave::variant_model::{
    expand_constructor_fields, field_len, from_variant_source, indexed_names, make_bindings, replacement_names,
    resolved_source_index, scan_field_refs, variant_source_index, AttrKind, AttrMark, FieldRef, FieldsShape, MarkError,
};

fn s(v: &str) -> String {
    v.to_string()
}

fn mark(kind: AttrKind) -> AttrMark {
    AttrMark { kind, path_only: true }
}

#[test]
fn display_modes() {
    assert_eq!(parse_display_mode(&vec![]), Ok(DisplayMode::Default));
    assert_eq!(parse_display_mode(&vec![DisplayArg::Template(s("user {0}"))]), Ok(DisplayMode::Template(s("user {0}"))));
    assert_eq!(parse_display_mode(&vec![DisplayArg::Ident(s("transparent"))]), Ok(DisplayMode::Transparent));
    assert_eq!(parse_display_mode(&vec![DisplayArg::Ident(s("opaque"))]), Err(DisplayError::Unsupported));
    assert_eq!(parse_display_mode(&vec![DisplayArg::Malformed]), Err(DisplayError::Malformed));
    assert_eq!(
        parse_display_mode(&vec![DisplayArg::Template(s("a")), DisplayArg::Template(s("b"))]),
        Err(DisplayError::Duplicate)
    );
    assert_eq!(parse_error_display(&vec![]), Err(DisplayError::Missing));
    assert_eq!(parse_error_display(&vec![DisplayArg::Template(s("io error: {0}"))]), Ok(DisplayMode::Template(s("io error: {0}"))));
}

#[test]
fn transparent_needs_one_tuple_field() {
    assert_eq!(check_transparent(&DisplayMode::Transparent, &FieldsShape::Unnamed(1)), Ok(()));
    assert_eq!(
        check_transparent(&DisplayMode::Transparent, &FieldsShape::Unnamed(2)),
        Err(DisplayError::TransparentNeedsOneField)
    );
    assert_eq!(
        check_transparent(&DisplayMode::Transparent, &FieldsShape::Named(vec![s("x")])),
        Err(DisplayError::TransparentNeedsOneField)
    );
    assert_eq!(check_transparent(&DisplayMode::Default, &FieldsShape::Unit), Ok(()));
}

#[test]
fn union_plans_external_and_inline_variants() {
    let items = vec![
        UnionItem::External { type_text: s("std::io::Error"), last_segment: Some(s("Error")), alias: None },
        UnionItem::External { type_text: s("DbError"), last_segment: Some(s("DbError")), alias: Some(s("Db")) },
        UnionItem::Inline(vec![InlineVariant { name: s("Timeout"), from_source: None }]),
    ];
    assert_eq!(
        plan_union(&items),
        Ok(vec![
            PlannedVariant { name: s("Error"), external: true, from_key: Some(s("std::io::Error")) },
            PlannedVariant { name: s("Db"), external: true, from_key: Some(s("DbError")) },
            PlannedVariant { name: s("Timeout"), external: false, from_key: None },
        ])
    );
    let no_segment = vec![UnionItem::External { type_text: s("<T>"), last_segment: None, alias: None }];
    assert_eq!(plan_union(&no_segment).unwrap()[0].name, "Unknown");
}

#[test]
fn union_refuses_duplicates() {
    let dup_name = vec![
        UnionItem::Inline(vec![InlineVariant { name: s("Timeout"), from_source: None }]),
        UnionItem::External { type_text: s("x::Timeout"), last_segment: Some(s("Timeout")), alias: None },
    ];
    assert_eq!(plan_union(&dup_name), Err(UnionError::DuplicateVariant(s("Timeout"))));
    let dup_from = vec![UnionItem::Inline(vec![
        InlineVariant { name: s("A"), from_source: Some(s("std::io::Error")) },
        InlineVariant { name: s("B"), from_source: Some(s("std::io::Error")) },
    ])];
    assert_eq!(plan_union(&dup_from), Err(UnionError::DuplicateFromSource(s("std::io::Error"))));
    assert_eq!(plan_union(&vec![]), Ok(vec![]));
}

#[test]
fn derive_lists_get_debug_once() {
    assert_eq!(merge_debug_derive(&vec![s("Clone"), s("Debug"), s("Clone")]), vec![s("Clone"), s("Debug")]);
    assert_eq!(merge_debug_derive(&vec![s("Clone")]), vec![s("Clone"), s("Debug")]);
    assert_eq!(merge_debug_derive(&vec![]), vec![s("Debug")]);
}

#[test]
fn diagweave_options() {
    let o = parse_diagweave_options(&vec![]).unwrap();
    assert_eq!(o.report_path, "::diagweave::report::Report");
    assert_eq!(o.constructor_prefix, "");
    let o = parse_diagweave_options(&vec![
        OptionEntry { key: s("report_path"), value: s("crate::custom_runtime::Bag") },
        OptionEntry { key: s("constructor_prefix"), value: s("new") },
    ])
    .unwrap();
    assert_eq!(o.report_path, "crate::custom_runtime::Bag");
    assert_eq!(o.constructor_prefix, "new");
    assert_eq!(
        parse_diagweave_options(&vec![OptionEntry { key: s("report_path"), value: s("not a path!") }]),
        Err(OptionError::InvalidReportPath)
    );
    assert_eq!(
        parse_diagweave_options(&vec![OptionEntry { key: s("constructor_prefix"), value: s("New") }]),
        Err(OptionError::InvalidConstructorPrefix)
    );
    assert_eq!(
        parse_diagweave_options(&vec![OptionEntry { key: s("color"), value: s("red") }]),
        Err(OptionError::UnknownOption)
    );
}

#[test]
fn field_markers() {
    let fields = vec![vec![mark(AttrKind::Other)], vec![mark(AttrKind::Source)]];
    assert_eq!(
        scan_field_refs(&fields),
        Ok(vec![
            FieldRef { index: 0, has_from: false, has_source: false },
            FieldRef { index: 1, has_from: false, has_source: true },
        ])
    );
    assert_eq!(resolved_source_index(&fields), Ok(Some(1)));
    assert_eq!(resolved_source_index(&vec![vec![], vec![]]), Ok(None));
    assert_eq!(
        resolved_source_index(&vec![vec![mark(AttrKind::Source)], vec![mark(AttrKind::Source)]]),
        Err(MarkError::MultipleSourceFields)
    );
    assert_eq!(
        resolved_source_index(&vec![vec![mark(AttrKind::From)], vec![]]),
        Err(MarkError::FromNeedsSingleField)
    );
    assert_eq!(resolved_source_index(&vec![vec![mark(AttrKind::From)]]), Ok(Some(0)));
    assert_eq!(
        scan_field_refs(&vec![vec![mark(AttrKind::From), mark(AttrKind::From)]]),
        Err(MarkError::DuplicateFrom)
    );
    assert_eq!(
        scan_field_refs(&vec![vec![AttrMark { kind: AttrKind::Source, path_only: false }]]),
        Err(MarkError::SourceWithArguments)
    );
    assert_eq!(
        scan_field_refs(&vec![vec![AttrMark { kind: AttrKind::From, path_only: false }]]),
        Err(MarkError::FromWithArguments)
    );
    assert_eq!(
        scan_field_refs(&vec![vec![mark(AttrKind::Source), mark(AttrKind::Source)]]),
        Err(MarkError::DuplicateSource)
    );
}

#[test]
fn variant_sources_and_names() {
    assert_eq!(variant_source_index(&FieldsShape::Unnamed(1), &vec![vec![mark(AttrKind::Source)]]), Ok(Some(0)));
    assert_eq!(variant_source_index(&FieldsShape::Unit, &vec![]), Ok(None));
    assert_eq!(from_variant_source(&FieldsShape::Unnamed(1)), Ok(()));
    assert_eq!(from_variant_source(&FieldsShape::Unit), Err(MarkError::FromNeedsTupleField));
    assert_eq!(field_len(&FieldsShape::Named(vec![s("a"), s("b")])), 2);
    assert_eq!(indexed_names("x", 3), vec![s("x0"), s("x1"), s("x2")]);
    assert_eq!(make_bindings(&FieldsShape::Unnamed(2)), vec![s("f0"), s("f1")]);
    assert_eq!(expand_constructor_fields(&FieldsShape::Unnamed(2)), vec![s("arg0"), s("arg1")]);
    assert_eq!(expand_constructor_fields(&FieldsShape::Named(vec![s("user_id")])), vec![s("user_id")]);
    assert_eq!(replacement_names(&FieldsShape::Unnamed(11))[10], "10");
    assert_eq!(make_bindings(&FieldsShape::Unit), Vec::<String>::new());
}
