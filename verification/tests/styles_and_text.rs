use russ::ast::{ClosedRange, CssIdent};
use russ::styles::{block_text, class_selector, declaration_text, rule_set_text, styles_text, CSSKey};
use russ::text::{escape_quotes, i64_to_dec, to_camel, to_kebab, to_lowercased, u64_to_dec, u64_to_hex, u64_to_hex_upper};

#[test]
fn new_hash() {
    // the key is a pure function of the rendered bytes
    let a = CSSKey::new_hash(b"a{color:red;}");
    let b = CSSKey::new_hash(b"a{color:red;}");
    let c = CSSKey::new_hash(b"a{color:blue;}");
    assert_eq!(a, b);
    assert_ne!(a, c);
}

#[test]
fn unique_id() {
    assert_eq!(CSSKey(255).unique_id(), "ff");
    assert_eq!(CSSKey(0).unique_id(), "0");
    assert_eq!(CSSKey(0xdead_beef).unique_id(), "deadbeef");
}

#[test]
fn style_sheet_text() {
    assert_eq!(declaration_text("display", "flex"), "display:flex");
    assert_eq!(
        block_text(&vec!["display:flex".to_owned(), "color:red".to_owned()]),
        "{display:flex;color:red;}"
    );
    assert_eq!(block_text(&vec![]), "{}");
    assert_eq!(class_selector("a1b2", 0), ".a1b2-0");
    assert_eq!(rule_set_text(".a1b2-0", "{display:flex;}"), ".a1b2-0{display:flex;}");
}

#[test]
fn whole_sheet_text() {
    let blocks = vec!["{display:flex;}".to_owned(), "{color:red;}".to_owned()];
    assert_eq!(
        styles_text("a1b2", &blocks),
        ".a1b2-0{display:flex;}.a1b2-1{color:red;}"
    );
    assert_eq!(styles_text("a1b2", &vec![]), "");
}

#[test]
fn range_diagnostics_print_infinities() {
    let r = ClosedRange { min: Some(1), max: Some(4) };
    assert_eq!(r.range_text(), "[1,4]");
    let low_open = ClosedRange { min: None, max: Some(360) };
    assert_eq!(low_open.range_text(), "[-inf,360]");
    let high_open = ClosedRange { min: Some(0), max: None };
    assert_eq!(high_open.range_text(), "[0,+inf]");
    assert_eq!(
        high_open.check_message(),
        "value must be in closed range [0,+inf]"
    );
}

#[test]
fn digits_render_exactly() {
    assert_eq!(u64_to_dec(0), "0");
    assert_eq!(u64_to_dec(1234567890), "1234567890");
    assert_eq!(i64_to_dec(-42), "-42");
    assert_eq!(i64_to_dec(i64::MIN), "-9223372036854775808");
    assert_eq!(u64_to_hex(0x1f), "1f");
    assert_eq!(u64_to_hex_upper(0x1f), "1F");
    assert_eq!(u64_to_hex_upper(10), "A");
}

#[test]
fn quotes_are_escaped() {
    assert_eq!(escape_quotes("plain"), "plain");
    assert_eq!(escape_quotes("a\"b\"c"), "a\\\"b\\\"c");
    assert_eq!(escape_quotes(""), "");
}

#[test]
fn case_conversions_come_from_the_real_library() {
    // these would fail if the conversions handed their input back
    assert_eq!(to_camel("background-color"), "BackgroundColor");
    assert_eq!(to_kebab("ColorDodge"), "color-dodge");
    assert_eq!(to_lowercased("Px"), "px");
}

#[test]
fn test() {
    let test = {
        struct A {
            b: String,
        }

        A { b: "test".into() }
    };

    assert_eq!(test.b, "test".to_string());

    let styles = rule_set_text(
        &class_selector("wrapper", 0),
        &block_text(&vec![declaration_text("display", "flex")]),
    );
    assert_eq!(styles, ".wrapper-0{display:flex;}");
}

#[test]
fn ident_value_joins_segments() {
    let ident = CssIdent::new(vec!["no".to_owned(), "repeat".to_owned()]);
    assert_eq!(ident.value(), "no-repeat");
    let one = CssIdent::new(vec!["left".to_owned()]);
    assert_eq!(one.value(), "left");
}
