use russ::attrs::{
    expect_no_shape, field_attr_from_attr, parse_single_shape, shape_from_attr, AttrError, RawArg,
    RawAttr,
};
use russ::css_value::ShapeAttr;

fn flag(name: &str) -> RawArg {
    RawArg::Flag(name.to_owned())
}

fn kw(name: &str, value: &str) -> RawArg {
    RawArg::KeyValue(name.to_owned(), value.to_owned())
}

fn attr(path: &str, args: Vec<RawArg>) -> RawAttr {
    RawAttr {
        path: path.to_owned(),
        args,
    }
}

#[test]
fn dimension_attr_reads_zero_and_unit() {
    let a = attr("dimension", vec![flag("zero")]);
    match shape_from_attr(&a).unwrap() {
        ShapeAttr::Dimension { zero, unit } => {
            assert!(zero);
            assert!(unit.is_none());
        },
        _ => panic!("expected a dimension shape"),
    }
    let a = attr("dimension", vec![kw("unit", "px")]);
    match shape_from_attr(&a).unwrap() {
        ShapeAttr::Dimension { zero, unit } => {
            assert!(!zero);
            assert_eq!(unit.as_deref(), Some("px"));
        },
        _ => panic!("expected a dimension shape"),
    }
}

#[test]
fn unrecognized_argument_is_a_conflict() {
    let a = attr("keyword", vec![kw("separator", ",")]);
    match shape_from_attr(&a) {
        Err(AttrError::UnexpectedArgument(n)) => assert_eq!(n, "separator"),
        _ => panic!("the keyword shape does not take a separator"),
    }
}

#[test]
fn at_most_one_shape_attribute() {
    let attrs = vec![
        attr("keyword", vec![]),
        attr("dimension", vec![]),
    ];
    match parse_single_shape(&attrs) {
        Err(AttrError::MultipleShapes) => (),
        _ => panic!("two shape attributes must conflict"),
    }

    let attrs = vec![attr("doc", vec![]), attr("value", vec![kw("prefix", "#")])];
    match parse_single_shape(&attrs).unwrap() {
        Some(ShapeAttr::Value { prefix, write_fn, .. }) => {
            assert_eq!(prefix.as_deref(), Some("#"));
            assert!(!write_fn);
        },
        _ => panic!("expected the value shape"),
    }

    assert!(parse_single_shape(&vec![attr("doc", vec![])]).unwrap().is_none());
}

#[test]
fn no_shape_allowed_on_the_container() {
    assert!(expect_no_shape(&vec![attr("derive", vec![])]).is_ok());
    match expect_no_shape(&vec![attr("keyword", vec![])]) {
        Err(AttrError::AttrNotAllowed) => (),
        _ => panic!("a shape on the container is a conflict"),
    }
}

#[test]
fn field_attr_conflicts() {
    let a = attr("field", vec![flag("option"), flag("iter")]);
    match field_attr_from_attr(&a) {
        Err(AttrError::OptionAndIter) => (),
        _ => panic!("option and iter at once must conflict"),
    }
    let a = attr("field", vec![kw("prefix", "/ "), flag("option")]);
    let fa = field_attr_from_attr(&a).unwrap();
    assert_eq!(fa.prefix.as_deref(), Some("/ "));
    assert!(fa.option && !fa.iter);
    let a = attr("field", vec![flag("wrong")]);
    match field_attr_from_attr(&a) {
        Err(AttrError::UnexpectedArgument(n)) => assert_eq!(n, "wrong"),
        _ => panic!("an unknown field argument must conflict"),
    }
}
