use russ::css_value::{
    write_field, write_for_fields, CssField, FieldAttr, FieldContent, ShapeAttr, ShapeError,
};
use russ::writer::CssWriter;

fn plain_field(text: &str) -> CssField {
    CssField {
        attr: None,
        content: FieldContent::Value(text.to_owned()),
    }
}

fn absent_field() -> CssField {
    CssField {
        attr: None,
        content: FieldContent::Nothing,
    }
}

fn render_shape(
    attr: Option<ShapeAttr>,
    name: &str,
    custom: Option<String>,
    fields: Vec<CssField>,
) -> Result<String, ShapeError> {
    let mut f = CssWriter::new();
    write_for_fields(&attr, name, &custom, &fields, &mut f)?;
    Ok(f.into_string())
}

#[test]
fn zero_dimension_is_one_character() {
    // a zero dimension writes the bare character 0, whatever the type name
    let r = render_shape(
        Some(ShapeAttr::Dimension { zero: true, unit: None }),
        "Px",
        None,
        vec![],
    );
    assert_eq!(r.unwrap(), "0");
    let r = render_shape(
        Some(ShapeAttr::Dimension { zero: true, unit: Some("px".to_owned()) }),
        "Whatever",
        None,
        vec![],
    );
    assert_eq!(r.unwrap(), "0");
}

#[test]
fn dimension_defaults_unit_to_lowercased_name() {
    let r = render_shape(
        Some(ShapeAttr::Dimension { zero: false, unit: None }),
        "Q",
        None,
        vec![plain_field("5")],
    );
    assert_eq!(r.unwrap(), "5q");
    let r = render_shape(
        Some(ShapeAttr::Dimension { zero: false, unit: Some("px".to_owned()) }),
        "Length",
        None,
        vec![plain_field("10")],
    );
    assert_eq!(r.unwrap(), "10px");
}

#[test]
fn keyword_defaults_to_kebab_cased_name() {
    let r = render_shape(Some(ShapeAttr::Keyword { value: None }), "ColorDodge", None, vec![]);
    assert_eq!(r.unwrap(), "color-dodge");
    let r = render_shape(
        Some(ShapeAttr::Keyword { value: Some("none".to_owned()) }),
        "Whatever",
        None,
        vec![],
    );
    assert_eq!(r.unwrap(), "none");
}

#[test]
fn function_wraps_joined_fields() {
    let r = render_shape(
        Some(ShapeAttr::Function { name: None, separator: None }),
        "RgbColor",
        None,
        vec![plain_field("1"), plain_field("2"), plain_field("3")],
    );
    assert_eq!(r.unwrap(), "rgb-color(1,2,3)");
    let r = render_shape(
        Some(ShapeAttr::Function { name: Some("calc".to_owned()), separator: Some(" ".to_owned()) }),
        "Whatever",
        None,
        vec![plain_field("1"), plain_field("+"), plain_field("2")],
    );
    assert_eq!(r.unwrap(), "calc(1 + 2)");
}

#[test]
fn value_join_skips_absent_fields_cleanly() {
    // (required A, optional B, optional C): the presence of each optional
    // field changes only its own segment and boundary
    let shape = || Some(ShapeAttr::Value {
        prefix: None,
        suffix: None,
        separator: Some(" ".to_owned()),
        write_fn: false,
    });
    let r = render_shape(shape(), "T", None, vec![plain_field("A"), absent_field(), absent_field()]);
    assert_eq!(r.unwrap(), "A");
    let r = render_shape(shape(), "T", None, vec![plain_field("A"), absent_field(), plain_field("C")]);
    assert_eq!(r.unwrap(), "A C");
    let r = render_shape(
        shape(),
        "T",
        None,
        vec![plain_field("A"), plain_field("B"), plain_field("C")],
    );
    assert_eq!(r.unwrap(), "A B C");
}

#[test]
fn value_prefix_suffix_and_custom_hook() {
    let r = render_shape(
        Some(ShapeAttr::Value {
            prefix: Some("#".to_owned()),
            suffix: None,
            separator: None,
            write_fn: false,
        }),
        "T",
        None,
        vec![plain_field("FF0099")],
    );
    assert_eq!(r.unwrap(), "#FF0099");
    // the custom hook fully overrides value writing, inside the framing
    let r = render_shape(
        Some(ShapeAttr::Value {
            prefix: Some("<".to_owned()),
            suffix: Some(">".to_owned()),
            separator: None,
            write_fn: true,
        }),
        "T",
        Some("hook output".to_owned()),
        vec![plain_field("ignored")],
    );
    assert_eq!(r.unwrap(), "<hook output>");
}

#[test]
fn shape_preconditions_are_errors() {
    let r = render_shape(
        Some(ShapeAttr::Dimension { zero: true, unit: None }),
        "T",
        None,
        vec![plain_field("5")],
    );
    assert_eq!(r.unwrap_err(), ShapeError::ZeroDimensionFields);
    let r = render_shape(
        Some(ShapeAttr::Dimension { zero: false, unit: None }),
        "T",
        None,
        vec![],
    );
    assert_eq!(r.unwrap_err(), ShapeError::DimensionSingleField);
    let r = render_shape(
        Some(ShapeAttr::Keyword { value: None }),
        "T",
        None,
        vec![plain_field("5")],
    );
    assert_eq!(r.unwrap_err(), ShapeError::KeywordFields);
    let r = render_shape(
        Some(ShapeAttr::Value { prefix: None, suffix: None, separator: None, write_fn: false }),
        "T",
        None,
        vec![],
    );
    assert_eq!(r.unwrap_err(), ShapeError::ValueFields);
    let r = render_shape(
        Some(ShapeAttr::Value { prefix: None, suffix: None, separator: None, write_fn: true }),
        "T",
        None,
        vec![],
    );
    assert_eq!(r.unwrap_err(), ShapeError::MissingCustom);
    let r = render_shape(None, "T", None, vec![]);
    assert_eq!(r.unwrap_err(), ShapeError::SingleField);
    assert_eq!(
        ShapeError::ZeroDimensionFields.message(),
        "zero dimension must not have any fields"
    );
}

#[test]
fn collection_fields_join_with_their_own_separator() {
    let items = CssField {
        attr: None,
        content: FieldContent::Items(vec!["a".to_owned(), "b".to_owned(), "c".to_owned()]),
    };
    let mut f = CssWriter::new();
    write_field(&items, &mut f);
    assert_eq!(f.into_string(), "a,b,c");

    let spaced = CssField {
        attr: Some(FieldAttr {
            prefix: None,
            suffix: None,
            option: false,
            iter: true,
            iter_option: false,
            iter_separator: Some(" ".to_owned()),
        }),
        content: FieldContent::Items(vec!["a".to_owned(), "b".to_owned()]),
    };
    let mut f = CssWriter::new();
    write_field(&spaced, &mut f);
    assert_eq!(f.into_string(), "a b");

    // individually optional elements: absent ones add no boundary
    let opt = CssField {
        attr: None,
        content: FieldContent::OptItems(vec![Some("a".to_owned()), None, Some("c".to_owned())]),
    };
    let mut f = CssWriter::new();
    write_field(&opt, &mut f);
    assert_eq!(f.into_string(), "a,c");

    // an empty collection writes nothing, not even prefix or suffix
    let empty = CssField {
        attr: Some(FieldAttr {
            prefix: Some("/ ".to_owned()),
            suffix: None,
            option: false,
            iter: true,
            iter_option: false,
            iter_separator: None,
        }),
        content: FieldContent::Items(vec![]),
    };
    let mut f = CssWriter::new();
    write_field(&empty, &mut f);
    assert_eq!(f.into_string(), "");
}

#[test]
fn field_prefix_applies_once_per_field() {
    let sized = CssField {
        attr: Some(FieldAttr {
            prefix: Some("/ ".to_owned()),
            suffix: None,
            option: true,
            iter: false,
            iter_option: false,
            iter_separator: None,
        }),
        content: FieldContent::Value("cover".to_owned()),
    };
    let r = render_shape(
        Some(ShapeAttr::Value { prefix: None, suffix: None, separator: None, write_fn: false }),
        "T",
        None,
        vec![plain_field("center"), sized],
    );
    assert_eq!(r.unwrap(), "center / cover");
}
