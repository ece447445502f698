use mozart::compose::{check_kinds_agree, compose, outcome, replace_placeholders, Form, Plan, Substitution};
use mozart::expand::mozart;
use mozart::mapping::build_mapping;
use mozart::model::{
    kind_of_delimiter, Delimiter, FnSignature, InputError, MozartError, Placeholder, PlaceholderError,
    PlaceholderErrorKind, Position, SectionError, VariantKind,
};
use mozart::names::{decimal, function_name, module_name, sorted_order, str_less};
use mozart::product::cartesian_product;
use mozart::sections::{build_sections, Phase, RawSection, Section, SectionParser};

fn ph(name: &str, delimiter: Delimiter, position: Position) -> Placeholder {
    Placeholder { name: Some(name.to_string()), delimiter, position }
}

fn bad_ph(delimiter: Delimiter, position: Position) -> Placeholder {
    Placeholder { name: None, delimiter, position }
}

fn sig(name: &str) -> FnSignature {
    FnSignature { name: name.to_string(), has_generics: false, is_async: false, has_receiver: false }
}

fn raw(name: &str, variants: &[Option<&str>]) -> RawSection {
    RawSection { name: name.to_string(), variants: variants.iter().map(|v| v.map(|s| s.to_string())).collect() }
}

fn section(name: &str, kind: VariantKind, variants: &[&str]) -> Section {
    Section { name: name.to_string(), kind, variants: variants.iter().map(|s| s.to_string()).collect() }
}

/// The template and sections of the README: `sort` (two unnamed expressions),
/// `integer` (two unnamed types) and `block` (blocks `one` and `two`).
fn readme() -> (FnSignature, Vec<Placeholder>, Vec<RawSection>) {
    let placeholders = vec![
        ph("sort", Delimiter::Bracket, Position::Expr),
        ph("integer", Delimiter::Paren, Position::Type),
        ph("block", Delimiter::Brace, Position::Stmt),
    ];
    let sections = vec![
        raw("sort", &[None, None]),
        raw("integer", &[None, None]),
        raw("block", &[Some("one"), Some("two")]),
    ];
    (sig("test"), placeholders, sections)
}

fn names(plan: &Plan) -> Vec<String> {
    plan.functions.iter().map(|f| f.name.clone()).collect()
}

#[test]
fn readme_example_generates_eight_distinct_functions() {
    let (s, p, r) = readme();
    let plan = mozart(&s, &p, &r).unwrap();
    assert_eq!(plan.module_name, "__variants_test");
    assert_eq!(
        names(&plan),
        vec![
            "__test_one_v0_v0",
            "__test_two_v0_v0",
            "__test_one_v1_v0",
            "__test_two_v1_v0",
            "__test_one_v0_v1",
            "__test_two_v0_v1",
            "__test_one_v1_v1",
            "__test_two_v1_v1",
        ]
    );
    let mut sorted = names(&plan);
    sorted.sort();
    sorted.dedup();
    assert_eq!(sorted.len(), 8);
}

#[test]
fn every_combination_appears_once_in_lexicographic_order() {
    let (s, p, r) = readme();
    let plan = mozart(&s, &p, &r).unwrap();
    let choices: Vec<Vec<usize>> = plan.functions.iter().map(|f| f.choice.clone()).collect();
    let mut expected = Vec::new();
    for a in 0..2 {
        for b in 0..2 {
            for c in 0..2 {
                expected.push(vec![a, b, c]);
            }
        }
    }
    assert_eq!(choices, expected);
}

#[test]
fn placeholders_take_the_chosen_variant_of_their_group() {
    let (s, p, r) = readme();
    let plan = mozart(&s, &p, &r).unwrap();
    let f = &plan.functions[5];
    assert_eq!(f.choice, vec![1, 0, 1]);
    assert_eq!(
        f.substitutions,
        vec![
            Substitution { placeholder: 0, section: 0, variant: 1, form: Form::Expr },
            Substitution { placeholder: 1, section: 1, variant: 0, form: Form::Type },
            Substitution { placeholder: 2, section: 2, variant: 1, form: Form::Stmt },
        ]
    );
}

#[test]
fn function_count_is_the_product_of_section_sizes() {
    let p = vec![
        ph("a", Delimiter::Bracket, Position::Expr),
        ph("b", Delimiter::Bracket, Position::Expr),
    ];
    let r = vec![raw("a", &[None, None, None]), raw("b", &[None, None])];
    let plan = mozart(&sig("f"), &p, &r).unwrap();
    assert_eq!(plan.functions.len(), 6);
}

#[test]
fn no_sections_give_one_function() {
    let plan = mozart(&sig("f"), &vec![], &vec![]).unwrap();
    assert_eq!(names(&plan), vec!["__f_"]);
    assert_eq!(plan.functions[0].choice, Vec::<usize>::new());
}

#[test]
fn other_positions_are_left_alone() {
    let p = vec![ph("a", Delimiter::Paren, Position::Other), ph("a", Delimiter::Paren, Position::Type)];
    let r = vec![raw("a", &[None])];
    let plan = mozart(&sig("f"), &p, &r).unwrap();
    assert_eq!(
        plan.functions[0].substitutions,
        vec![Substitution { placeholder: 1, section: 0, variant: 0, form: Form::Type }]
    );
}

#[test]
fn bracket_statement_gets_a_semicolon() {
    let p = vec![ph("a", Delimiter::Bracket, Position::Stmt)];
    let r = vec![raw("a", &[None])];
    let plan = mozart(&sig("f"), &p, &r).unwrap();
    assert_eq!(plan.functions[0].substitutions[0].form, Form::StmtWithSemicolon);
}

#[test]
fn names_with_underscores_can_collide() {
    let p = vec![
        ph("a", Delimiter::Bracket, Position::Expr),
        ph("b", Delimiter::Bracket, Position::Expr),
    ];
    let r = vec![raw("a", &[Some("x_y"), Some("x")]), raw("b", &[Some("z"), Some("y_z")])];
    let plan = mozart(&sig("f"), &p, &r).unwrap();
    assert_eq!(plan.functions[0].name, "__f_x_y_z");
    assert_eq!(plan.functions[3].name, "__f_x_y_z");
}

#[test]
fn mapping_gives_each_group_its_delimiter_kind() {
    assert_eq!(kind_of_delimiter(Delimiter::Brace), VariantKind::Block);
    assert_eq!(kind_of_delimiter(Delimiter::Bracket), VariantKind::Expr);
    assert_eq!(kind_of_delimiter(Delimiter::Paren), VariantKind::Type);
    let (_, p, _) = readme();
    let m = build_mapping(&p).ok().unwrap();
    assert_eq!(m.kind_of(&"sort".to_string()), Some(VariantKind::Expr));
    assert_eq!(m.kind_of(&"integer".to_string()), Some(VariantKind::Type));
    assert_eq!(m.kind_of(&"block".to_string()), Some(VariantKind::Block));
    assert_eq!(m.kind_of(&"other".to_string()), None);
}

#[test]
fn mapping_reports_every_error_in_order() {
    let p = vec![
        ph("a", Delimiter::Bracket, Position::Expr),
        bad_ph(Delimiter::Bracket, Position::Expr),
        ph("a", Delimiter::Paren, Position::Type),
        ph("a", Delimiter::Bracket, Position::Stmt),
        ph("a", Delimiter::Brace, Position::Other),
    ];
    let errs = build_mapping(&p).err().unwrap();
    assert_eq!(
        errs,
        vec![
            PlaceholderError { placeholder: 1, kind: PlaceholderErrorKind::NameTokenMismatch },
            PlaceholderError { placeholder: 2, kind: PlaceholderErrorKind::UsedWithMultipleKinds },
            PlaceholderError { placeholder: 4, kind: PlaceholderErrorKind::UsedWithMultipleKinds },
        ]
    );
    assert_eq!(mozart(&sig("f"), &p, &vec![]), Err(MozartError::Mapping(errs)));
}

#[test]
fn duplicate_section_is_refused() {
    let p = vec![ph("a", Delimiter::Bracket, Position::Expr)];
    let r = vec![raw("a", &[None]), raw("a", &[None])];
    assert_eq!(
        mozart(&sig("f"), &p, &r),
        Err(MozartError::Section(SectionError::DuplicateSection { section: 1 }))
    );
}

#[test]
fn empty_section_is_refused() {
    let p = vec![ph("a", Delimiter::Bracket, Position::Expr)];
    let r = vec![raw("a", &[])];
    assert_eq!(
        mozart(&sig("f"), &p, &r),
        Err(MozartError::Section(SectionError::EmptySection { section: 0 }))
    );
}

#[test]
fn unreferenced_section_is_refused() {
    let p = vec![ph("a", Delimiter::Bracket, Position::Expr)];
    let r = vec![raw("a", &[None]), raw("b", &[None])];
    assert_eq!(
        mozart(&sig("f"), &p, &r),
        Err(MozartError::Section(SectionError::UnmappedSection { section: 1 }))
    );
}

#[test]
fn duplicate_variant_is_refused_even_against_a_generated_name() {
    let p = vec![ph("a", Delimiter::Bracket, Position::Expr)];
    let r = vec![raw("a", &[Some("v0"), None])];
    assert_eq!(
        mozart(&sig("f"), &p, &r),
        Err(MozartError::Section(SectionError::DuplicateVariant { section: 0, variant: 1 }))
    );
}

#[test]
fn unnamed_variants_are_counted_apart_from_named_ones() {
    let p = vec![ph("a", Delimiter::Bracket, Position::Expr)];
    let m = build_mapping(&p).ok().unwrap();
    let r = vec![raw("a", &[Some("x"), None, Some("y"), None, None, None, None, None, None, None, None, None, None])];
    let s = build_sections(m, &r).unwrap();
    assert_eq!(
        s[0].variants,
        vec!["x", "v0", "y", "v1", "v2", "v3", "v4", "v5", "v6", "v7", "v8", "v9", "v10"]
    );
    assert_eq!(s[0].kind, VariantKind::Expr);
}

#[test]
fn first_section_error_wins() {
    let p = vec![ph("a", Delimiter::Bracket, Position::Expr)];
    let m = build_mapping(&p).ok().unwrap();
    let r = vec![raw("b", &[]), raw("a", &[]), raw("a", &[None])];
    assert_eq!(build_sections(m, &r).err(), Some(SectionError::EmptySection { section: 0 }));
}

#[test]
fn parser_steps_match_the_whole_check() {
    let p = vec![ph("a", Delimiter::Bracket, Position::Expr), ph("b", Delimiter::Paren, Position::Type)];
    let m = build_mapping(&p).ok().unwrap();
    let mut parser = SectionParser::new(m);
    assert_eq!(parser.phase_exec(), Phase::BetweenSections);
    assert_eq!(parser.begin_section("a".to_string()), Ok(()));
    assert_eq!(parser.phase_exec(), Phase::AfterName);
    assert_eq!(parser.open_variants(false), Ok(VariantKind::Expr));
    assert_eq!(parser.add_variant(None), Ok(()));
    assert_eq!(parser.add_variant(Some("v0".to_string())), Err(SectionError::DuplicateVariant { section: 0, variant: 1 }));
    assert_eq!(parser.add_variant(Some("z".to_string())), Ok(()));
    parser.end_section();
    assert_eq!(parser.begin_section("a".to_string()), Err(SectionError::DuplicateSection { section: 1 }));
    assert_eq!(parser.begin_section("c".to_string()), Ok(()));
    assert_eq!(parser.open_variants(false), Err(SectionError::UnmappedSection { section: 1 }));
    let done = parser.finish();
    assert_eq!(done.len(), 1);
    assert_eq!(done[0].variants, vec!["v0", "z"]);

    let m = build_mapping(&p).ok().unwrap();
    let mut parser = SectionParser::new(m);
    assert_eq!(parser.begin_section("b".to_string()), Ok(()));
    assert_eq!(parser.open_variants(true), Err(SectionError::EmptySection { section: 0 }));
}

#[test]
fn template_checks_come_in_order() {
    let (_, p, r) = readme();
    let mut s = sig("f");
    s.has_generics = true;
    s.is_async = true;
    s.has_receiver = true;
    assert_eq!(mozart(&s, &p, &r), Err(MozartError::GenericFunction));
    s.has_generics = false;
    assert_eq!(mozart(&s, &p, &r), Err(MozartError::AsyncFunction));
    s.is_async = false;
    assert_eq!(mozart(&s, &p, &r), Err(MozartError::Method));
}

#[test]
fn replacement_errors_come_before_the_method_error() {
    let p = vec![
        ph("a", Delimiter::Bracket, Position::Expr),
        ph("x", Delimiter::Bracket, Position::Expr),
        ph("y", Delimiter::Paren, Position::Type),
        ph("z", Delimiter::Brace, Position::Stmt),
        ph("a", Delimiter::Bracket, Position::Other),
    ];
    let r = vec![raw("a", &[None])];
    let mut s = sig("f");
    s.has_receiver = true;
    // x, y and z name groups that have no section: the sections still check out,
    // and the replacement reports the three placeholders.
    assert_eq!(
        mozart(&s, &p, &r),
        Err(MozartError::Replace(vec![
            PlaceholderError { placeholder: 1, kind: PlaceholderErrorKind::UnknownExprGroup },
            PlaceholderError { placeholder: 2, kind: PlaceholderErrorKind::UnknownTypeGroup },
            PlaceholderError { placeholder: 3, kind: PlaceholderErrorKind::UnknownStmtGroup },
        ]))
    );
}

#[test]
fn placeholder_errors_of_each_kind() {
    let secs = vec![
        section("e", VariantKind::Expr, &["v0"]),
        section("t", VariantKind::Type, &["v0"]),
        section("b", VariantKind::Block, &["v0"]),
    ];
    let cases = vec![
        (bad_ph(Delimiter::Bracket, Position::Expr), Err(PlaceholderErrorKind::NameParse)),
        (ph("t", Delimiter::Paren, Position::Expr), Err(PlaceholderErrorKind::TypeVariantInExpr)),
        (ph("e", Delimiter::Brace, Position::Expr), Err(PlaceholderErrorKind::BlockKindMismatch)),
        (ph("b", Delimiter::Brace, Position::Expr), Ok((2, Form::Expr))),
        (ph("e", Delimiter::Bracket, Position::Type), Err(PlaceholderErrorKind::NonTypeInType)),
        (ph("t", Delimiter::Paren, Position::Stmt), Err(PlaceholderErrorKind::TypeVariantInStmt)),
        (ph("b", Delimiter::Brace, Position::Stmt), Ok((2, Form::Stmt))),
        (ph("t", Delimiter::Paren, Position::Type), Ok((1, Form::Type))),
    ];
    for (p, expected) in cases {
        assert_eq!(outcome(&p, &secs), expected);
    }
}

#[test]
fn replacement_is_the_same_for_every_choice_except_the_variant() {
    let secs = vec![section("a", VariantKind::Expr, &["p", "q"])];
    let p = vec![ph("a", Delimiter::Bracket, Position::Expr), bad_ph(Delimiter::Bracket, Position::Type)];
    let (s0, e0) = replace_placeholders(&p, &secs, &vec![0]);
    let (s1, e1) = replace_placeholders(&p, &secs, &vec![1]);
    assert_eq!(e0, e1);
    assert_eq!(e0, vec![PlaceholderError { placeholder: 1, kind: PlaceholderErrorKind::NameParse }]);
    assert_eq!(s0, vec![Substitution { placeholder: 0, section: 0, variant: 0, form: Form::Expr }]);
    assert_eq!(s1, vec![Substitution { placeholder: 0, section: 0, variant: 1, form: Form::Expr }]);
}

#[test]
fn kinds_agree_after_checking_and_not_otherwise() {
    let (_, p, r) = readme();
    let m = build_mapping(&p).ok().unwrap();
    let secs = build_sections(m, &r).unwrap();
    assert!(check_kinds_agree(&p, &secs));
    let clash = vec![section("sort", VariantKind::Type, &["v0"])];
    assert!(!check_kinds_agree(&vec![ph("sort", Delimiter::Bracket, Position::Expr)], &clash));
}

#[test]
fn compose_on_checked_sections() {
    let secs = vec![section("k", VariantKind::Expr, &["b", "a"]), section("j", VariantKind::Type, &["c"])];
    let p = vec![ph("k", Delimiter::Bracket, Position::Expr)];
    let plan = compose(&sig("g"), &p, &secs).unwrap();
    assert_eq!(names(&plan), vec!["__g_c_b", "__g_c_a"]);
    assert_eq!(plan.module_name, "__variants_g");
}

#[test]
fn product_of_sizes() {
    assert_eq!(cartesian_product(&vec![]), vec![Vec::<usize>::new()]);
    assert_eq!(cartesian_product(&vec![2, 0]), Vec::<Vec<usize>>::new());
    assert_eq!(
        cartesian_product(&vec![2, 3]),
        vec![vec![0, 0], vec![0, 1], vec![0, 2], vec![1, 0], vec![1, 1], vec![1, 2]]
    );
}

#[test]
fn decimal_notation() {
    assert_eq!(decimal(0), "0");
    assert_eq!(decimal(7), "7");
    assert_eq!(decimal(10), "10");
    assert_eq!(decimal(1234509), "1234509");
}

#[test]
fn string_order_is_lexicographic() {
    let s = |x: &str| x.to_string();
    assert!(str_less(&s("a"), &s("b")));
    assert!(str_less(&s("ab"), &s("b")));
    assert!(str_less(&s("a"), &s("ab")));
    assert!(!str_less(&s("ab"), &s("a")));
    assert!(!str_less(&s("a"), &s("a")));
    assert!(str_less(&s("Z"), &s("a")));
    assert!(str_less(&s(""), &s("a")));
    assert!(str_less(&s("é"), &s("ê")));
}

#[test]
fn order_of_names() {
    let v: Vec<String> = ["sort", "integer", "block", "a_b", "a"].iter().map(|s| s.to_string()).collect();
    assert_eq!(sorted_order(&v), vec![4, 3, 2, 1, 0]);
    assert_eq!(sorted_order(&vec![]), Vec::<usize>::new());
}

#[test]
fn generated_names() {
    let v: Vec<String> = ["one", "v0", "v1"].iter().map(|s| s.to_string()).collect();
    assert_eq!(function_name(&"test".to_string(), &v), "__test_one_v0_v1");
    assert_eq!(function_name(&"test".to_string(), &vec![]), "__test_");
    assert_eq!(module_name(&"test".to_string()), "__variants_test");
}

#[test]
fn error_messages() {
    assert_eq!(InputError::ExpectedFunctionDeclaration.message(), "expected a function declaration, perhaps you forgot ?");
    assert_eq!(
        InputError::UnexpectedTokensAfterFunction.message(),
        "Unexpected trailing tokens after function declaration. Try a diary instead"
    );
    assert_eq!(SectionError::DuplicateSection { section: 0 }.message(), "Variant section was declared before");
    assert_eq!(SectionError::EmptySection { section: 0 }.message(), "Variant section is empty");
    assert_eq!(
        SectionError::UnmappedSection { section: 0 }.message(),
        "Variant section was not referenced by any variant! placeholder in the function"
    );
    assert_eq!(SectionError::DuplicateVariant { section: 0, variant: 0 }.message(), "Variant was declared before");
    assert_eq!(PlaceholderErrorKind::NameParse.message(), None);
    assert_eq!(
        PlaceholderErrorKind::NameTokenMismatch.message(),
        Some("variant! placeholder must contain exactly one identifier")
    );
    assert_eq!(
        PlaceholderErrorKind::UsedWithMultipleKinds.message(),
        Some("Variant group used with multiple placeholder kinds")
    );
    assert_eq!(PlaceholderErrorKind::UnknownExprGroup.message(), Some("Unknown variant group in expression position"));
    assert_eq!(PlaceholderErrorKind::UnknownTypeGroup.message(), Some("Unknown variant group in type position"));
    assert_eq!(PlaceholderErrorKind::UnknownStmtGroup.message(), Some("Unknown variant group in statement position"));
    assert_eq!(
        PlaceholderErrorKind::BlockKindMismatch.message(),
        Some("variant! block placeholder resolved to a non-block variant")
    );
    assert_eq!(
        PlaceholderErrorKind::NonTypeInType.message(),
        Some("Only variant!(name) type placeholders can be used in type position")
    );
    assert_eq!(
        PlaceholderErrorKind::TypeVariantInStmt.message(),
        Some("variant!(name) type placeholder cannot be used in statement position")
    );
    assert!(PlaceholderErrorKind::TypeVariantInExpr.message().unwrap().starts_with("variant!(name) with parentheses"));
    assert_eq!(
        MozartError::GenericFunction.message(),
        Some("mozart! does not support generic functions (including lifetime parameters)")
    );
    assert_eq!(MozartError::AsyncFunction.message(), Some("mozart! does not support `async fn`"));
    assert_eq!(MozartError::Method.message(), Some("methods are not supported"));
    assert_eq!(MozartError::Replace(vec![]).message(), None);
}
