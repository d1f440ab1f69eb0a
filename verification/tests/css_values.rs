use russ::values::{
    Attachment, BackgroundAttachment, BackgroundClip, BackgroundClipItem, BackgroundOrigin,
    BackgroundRepeat, BackgroundRepeatItem, BackgroundRepeatStyle, BlendMode, BorderStyle, CSSBox,
    CSSString, GlobalValue, GradientEndingShape, ImageTags, LineStyle, Multiple, OneToFour,
    PositionHorizontalAnchor, PositionVerticalAnchor, ShapeBox,
};
use russ::writer::{render_to_string, CssWriter, MaybeWriteValue, WriteValue};

fn render<T: WriteValue>(value: T) -> String {
    render_to_string(&value)
}

#[test]
fn css_values_string() {
    assert_eq!(render(CSSString::new("hello world")), "\"hello world\"");
    assert_eq!(render(CSSString::new(r#" "'" "#)), r#"" \"'\" ""#);
}

#[test]
fn keywords() {
    assert_eq!(render(BlendMode::Normal), "normal");
    assert_eq!(render(BlendMode::ColorDodge), "color-dodge");
    assert_eq!(render(BlendMode::Luminosity), "luminosity");
    assert_eq!(render(CSSBox::PaddingBox), "padding-box");
    assert_eq!(render(ShapeBox::MarginBox), "margin-box");
    assert_eq!(render(ShapeBox::Box(CSSBox::BorderBox)), "border-box");
    assert_eq!(render(GlobalValue::Inherit), "inherit");
    assert_eq!(render(PositionHorizontalAnchor::Left), "left");
    assert_eq!(render(PositionVerticalAnchor::Bottom), "bottom");
    assert_eq!(render(ImageTags::Rtl), "rtl");
    assert_eq!(render(GradientEndingShape::Ellipse), "ellipse");
    assert_eq!(render(LineStyle::NoStyle), "none");
    assert_eq!(render(Attachment::Scroll), "scroll");
}

#[test]
fn multiple_renders_comma_separated() {
    let m = Multiple::new(vec![Attachment::Fixed, Attachment::Scroll]).unwrap();
    assert_eq!(render(m), "fixed,scroll");
    assert_eq!(render(Multiple::one(Attachment::Local)), "local");
    assert!(Multiple::<Attachment>::new(vec![]).is_none());
}

#[test]
fn one_to_four_renders_space_separated() {
    assert_eq!(render(OneToFour::one(LineStyle::Solid)), "solid");
    assert_eq!(
        render(OneToFour::two(LineStyle::Solid, LineStyle::Dotted)),
        "solid dotted"
    );
    assert_eq!(
        render(OneToFour::four(
            LineStyle::Solid,
            LineStyle::Dotted,
            LineStyle::Dashed,
            LineStyle::Double,
        )),
        "solid dotted dashed double"
    );
}

#[test]
fn one_to_four_count_and_linear() {
    let v = OneToFour::three(LineStyle::Groove, LineStyle::Ridge, LineStyle::Inset);
    assert_eq!(v.count(), 3);
    let lin = v.as_linear();
    assert!(lin.1.is_some() && lin.2.is_some() && lin.3.is_none());
    let w = OneToFour::unchecked_from_linear(
        LineStyle::Solid,
        None,
        Some(LineStyle::Dotted),
        Some(LineStyle::Dashed),
    );
    // later items are dropped when an earlier one is absent
    assert_eq!(w.count(), 1);
}

#[test]
fn optional_values_report_whether_they_wrote() {
    let mut f = CssWriter::new();
    let present: Option<BlendMode> = Some(BlendMode::Screen);
    assert!(present.maybe_write_value(&mut f));
    let absent: Option<BlendMode> = None;
    assert!(!absent.maybe_write_value(&mut f));
    assert_eq!(f.into_string(), "screen");
}

#[test]
fn background_declarations() {
    let mut f = CssWriter::new();
    let decl = BackgroundAttachment(Multiple::one(Attachment::Fixed));
    russ::writer::write_declaration(&decl, &mut f);
    assert_eq!(f.into_string(), "background-attachment:fixed");

    let clip = BackgroundClip(Multiple::new(vec![
        BackgroundClipItem::Box(CSSBox::ContentBox),
        BackgroundClipItem::Text,
    ])
    .unwrap());
    assert_eq!(render(clip), "content-box,text");

    let origin = BackgroundOrigin(Multiple::one(CSSBox::PaddingBox));
    assert_eq!(render(origin), "padding-box");

    let repeat = BackgroundRepeat(Multiple::new(vec![
        BackgroundRepeatItem::XY(BackgroundRepeatStyle::Repeat, Some(BackgroundRepeatStyle::Space)),
        BackgroundRepeatItem::RepeatX,
    ])
    .unwrap());
    assert_eq!(render(repeat), "repeat space,repeat-x");

    let border = BorderStyle(OneToFour::two(LineStyle::Dotted, LineStyle::Dashed));
    let mut f = CssWriter::new();
    russ::writer::write_declaration(&border, &mut f);
    assert_eq!(f.into_string(), "border-style:dotted dashed");
}
