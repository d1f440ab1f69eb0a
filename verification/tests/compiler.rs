use russ::ast::{ClosedRange, CombinedValue, CssIdent, Definition, PrimitiveValue, Reference};
use russ::compile_grammar;
use russ::matcher::{
    check_range_instance, match_bounded_range, match_combined, match_first_alternative, InputToken,
};
use russ::registry::Registry;
use russ::CompileError;
use russ::schema::GrammarError;

fn defs_of(src: &str) -> Vec<(String, String)> {
    let compiled = compile_grammar(src).expect("grammar should compile");
    compiled
        .definitions
        .iter()
        .map(|d| (d.ident.clone(), d.text.clone()))
        .collect()
}

fn tok(text: &str, rule: Option<&str>) -> InputToken {
    InputToken {
        text: text.to_owned(),
        rule: rule.map(|r| r.to_owned()),
    }
}

#[test]
fn two_variant_union() {
    // a two-alternative rule compiles to a union with one variant per
    // alternative, emitted before its wrapper
    let defs = defs_of("<x> = <length> | <percentage>;");
    assert_eq!(defs.len(), 2);
    assert_eq!(defs[0].0, "XInner");
    assert_eq!(defs[0].1, "pub enum XInner { V0(Length), V1(Percentage) }");
    assert_eq!(defs[1].0, "X");
    assert_eq!(defs[1].1, "pub struct X(XInner);");
}

#[test]
fn first_match_commits() {
    // a token that is a percentage resolves to the percentage variant;
    // the length branch is never reached after a match
    let compiled = compile_grammar("<x> = <length> | <percentage>;").unwrap();
    let e = match &compiled.ast.definition {
        Definition::Value(vd) => match &vd.line.value {
            CombinedValue::Enumeration(e) => e,
            _ => panic!("expected an enumeration"),
        },
        _ => panic!("expected a value rule"),
    };
    let toks = vec![tok("5%", Some("percentage"))];
    assert_eq!(match_first_alternative(e, &toks, 0), Some((1, 1)));

    // a token that is a length commits to the first alternative
    let toks = vec![tok("10px", Some("length"))];
    assert_eq!(match_first_alternative(e, &toks, 0), Some((0, 1)));

    let toks = vec![tok("red", None)];
    assert_eq!(match_first_alternative(e, &toks, 0), None);
}

#[test]
fn single_child_collapse() {
    // wrapping the right-hand side in a one-element group changes nothing
    let plain = defs_of("<x> = <a> <b>;");
    let grouped = defs_of("<x> = [<a> <b>];");
    assert_eq!(plain, grouped);
}

#[test]
fn sequence_becomes_tuple() {
    let defs = defs_of("<x> = <a> <b>;");
    assert_eq!(defs.len(), 1);
    assert_eq!(defs[0].1, "pub struct X(A, B);");
}

#[test]
fn keyword_synthesizes_unit_struct() {
    let defs = defs_of("<x> = left | right;");
    assert_eq!(defs.len(), 4);
    assert_eq!(defs[0].1, "pub struct XV0Left;");
    assert_eq!(defs[1].1, "pub struct XV1Right;");
    assert_eq!(defs[2].1, "pub enum XInner { V0(XV0Left), V1(XV1Right) }");
    assert_eq!(defs[3].1, "pub struct X(XInner);");
}

#[test]
fn multipliers_shape_types() {
    assert_eq!(defs_of("<x> = <a>*;")[0].1, "pub struct X(Vec<A>);");
    assert_eq!(defs_of("<x> = <a>?;")[0].1, "pub struct X(Option<A>);");
    assert_eq!(defs_of("<x> = <a>!;")[0].1, "pub struct X(A);");
    assert_eq!(defs_of("<x> = <a>#;")[0].1, "pub struct X(Vec<A>);");
    assert_eq!(defs_of("<x> = <a>{2};")[0].1, "pub struct X(A, A);");
    assert_eq!(
        defs_of("<x> = <a>{1,3};")[0].1,
        "pub struct X(A, Option<A>, Option<A>);"
    );
    assert_eq!(defs_of("<x> = <a>{2,};")[0].1, "pub struct X(Vec<A>);");
    // an exact range and an open one are told apart
    assert_eq!(defs_of("<x> = <a>{3};")[0].1, "pub struct X(A, A, A);");
    assert_eq!(defs_of("<x> = <a>{3,};")[0].1, "pub struct X(Vec<A>);");
}

#[test]
fn range_bounds_are_checked() {
    match compile_grammar("<x> = <a>{0,2};") {
        Err(CompileError::Grammar(GrammarError::RangeLowerBoundZero)) => (),
        _ => panic!("a zero lower bound must be rejected"),
    }
    match compile_grammar("<x> = <a>{3,2};") {
        Err(CompileError::Grammar(GrammarError::RangeUpperBelowLower)) => (),
        _ => panic!("an upper bound below the lower must be rejected"),
    }
}

#[test]
fn property_definition_and_extra_rules() {
    let defs = defs_of("<\"background-color\"> = <color>;\n<extra> = <a> | <b>;");
    // the trailing rules are dependencies of the file's definition, so
    // their declarations come out before it
    assert_eq!(defs[0].1, "pub enum ExtraInner { V0(A), V1(B) }");
    assert_eq!(defs[1].1, "pub struct Extra(ExtraInner);");
    assert_eq!(defs[2].1, "pub struct BackgroundColor(Color);");
}

#[test]
fn dedup_shares_one_definition() {
    // the same rule referenced from two variants is emitted once
    let defs = defs_of("<x> = left | left;");
    let left_count = defs
        .iter()
        .filter(|(_, text)| text == "pub struct XV0Left;")
        .count();
    assert_eq!(left_count, 1);
}

#[test]
fn syntax_error_reports_expected() {
    match compile_grammar("<x> = ;") {
        Err(CompileError::Syntax(e)) => {
            assert_eq!(e.expected, "primitive value");
        },
        _ => panic!("expected a syntax error"),
    }
    match compile_grammar("<x> = <a") {
        Err(CompileError::Syntax(_)) => (),
        _ => panic!("expected a syntax error"),
    }
    match compile_grammar("<x> = a & b;") {
        Err(CompileError::Syntax(_)) => (),
        _ => panic!("a lone ampersand is not a token"),
    }
}

#[test]
fn bounded_range_fills_left_to_right() {
    // `{1,3}` over <length> on two tokens: slot one required, slot two
    // filled, slot three absent
    let p = PrimitiveValue::Reference(Reference {
        ident: CssIdent::new(vec!["length".to_owned()]),
        range: None,
    });
    let toks = vec![tok("10px", Some("length")), tok("20px", Some("length"))];
    assert_eq!(match_bounded_range(&p, 1, 3, &toks, 0), Some((2, 2)));

    // the maximal instance fills every slot, the minimal only the
    // required one
    let toks3 = vec![
        tok("1px", Some("length")),
        tok("2px", Some("length")),
        tok("3px", Some("length")),
    ];
    assert_eq!(match_bounded_range(&p, 1, 3, &toks3, 0), Some((3, 3)));
    let toks1 = vec![tok("1px", Some("length"))];
    assert_eq!(match_bounded_range(&p, 1, 3, &toks1, 0), Some((1, 1)));
    let none: Vec<InputToken> = vec![];
    assert_eq!(match_bounded_range(&p, 1, 3, &none, 0), None);
}

#[test]
fn range_instance_legality() {
    // filled, filled, absent: legal
    assert!(check_range_instance(&vec![true, true, false], 1, 3));
    // a filled slot after a skipped one: illegal
    assert!(!check_range_instance(&vec![true, false, true], 1, 3));
    // a skipped required slot: illegal
    assert!(!check_range_instance(&vec![false, true, true], 1, 3));
    // every slot filled: legal
    assert!(check_range_instance(&vec![true, true, true], 1, 3));
}

#[test]
fn unordered_components_match_any_order() {
    let compiled = compile_grammar("<x> = a && b;").unwrap();
    let cv = match &compiled.ast.definition {
        Definition::Value(vd) => &vd.line.value,
        _ => panic!("expected a value rule"),
    };
    let ab = vec![tok("a", None), tok("b", None)];
    let ba = vec![tok("b", None), tok("a", None)];
    let only_a = vec![tok("a", None)];
    assert_eq!(match_combined(cv, &ab, 0), Some(2));
    assert_eq!(match_combined(cv, &ba, 0), Some(2));
    assert_eq!(match_combined(cv, &only_a, 0), None);
}

#[test]
fn one_or_more_unordered_accepts_partial() {
    let compiled = compile_grammar("<x> = a || b;").unwrap();
    let cv = match &compiled.ast.definition {
        Definition::Value(vd) => &vd.line.value,
        _ => panic!("expected a value rule"),
    };
    let only_b = vec![tok("b", None)];
    let both = vec![tok("b", None), tok("a", None)];
    let neither = vec![tok("z", None)];
    assert_eq!(match_combined(cv, &only_b, 0), Some(1));
    assert_eq!(match_combined(cv, &both, 0), Some(2));
    assert_eq!(match_combined(cv, &neither, 0), None);
}

#[test]
fn hyphenated_keywords_camel_case() {
    let defs = defs_of("<x> = no-repeat;");
    assert_eq!(defs[0].1, "pub struct XNoRepeat;");
    assert_eq!(defs[1].1, "pub struct X(XNoRepeat);");
}

#[test]
fn reference_ranges_and_literals() {
    // a reference range constrains values downstream, not the type
    let defs = defs_of("<x> = <angle[0,360]>;");
    assert_eq!(defs[0].1, "pub struct X(Angle);");
    let defs = defs_of("<x> = <angle[0,inf]>;");
    assert_eq!(defs[0].1, "pub struct X(Angle);");
    let defs = defs_of("<x> = \"/\";");
    assert_eq!(defs[0].1, "pub struct X(LitStr);");
}

#[test]
fn closed_range_checks_values() {
    let r = ClosedRange { min: Some(1), max: Some(4) };
    assert!(r.check(1) && r.check(4));
    assert!(!r.check(0) && !r.check(5));
    let unbounded = ClosedRange { min: Some(2), max: None };
    assert!(unbounded.check(1_000_000));
    assert!(!unbounded.check(1));
}

#[test]
fn oversized_numbers_are_syntax_errors() {
    match compile_grammar("<x> = <a>{99999999999999999999999};") {
        Err(CompileError::Syntax(_)) => (),
        _ => panic!("a number too large for the machine is rejected"),
    }
}

#[test]
fn registry_dedups_by_structure() {
    let mut reg = Registry::new();
    let a = reg.propose_ident("Len", &"shape-a".to_owned());
    assert_eq!(a, "Len");
    // a different structure wanting the same base gets a numbered variant
    let b = reg.propose_ident("Len", &"shape-b".to_owned());
    assert_eq!(b, "Len1");
    // the same structure gets the name it already has, whatever base is
    // proposed
    let c = reg.propose_ident("Other", &"shape-a".to_owned());
    assert_eq!(c, "Len");
}
