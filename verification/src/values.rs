//! The catalogue of CSS value types that the serialization vocabulary
//! drives: strings, integers, keyword enumerations and the small
//! containers `Multiple` and `OneToFour`, each rendering to its canonical
//! CSS text.

use vstd::prelude::*;
use crate::text::{escape_quotes, escaped, i64_to_dec, int_dec_of, join_with, lemma_join_with_push};
use crate::writer::{CssWriter, WriteDeclaration, WriteValue};

verus! {

/// A quoted CSS string; double quotes in the content are escaped when it
/// is written.
#[derive(Clone, Debug)]
pub struct CSSString {
    inner: String,
}

impl CSSString {
    /// The string's content.
    pub closed spec fn content(&self) -> Seq<char> {
        self.inner@
    }

    /// Wraps the given content.
    pub fn new(s: &str) -> (r: CSSString)
        ensures
            r.content() == s@,
    {
        CSSString { inner: s.to_owned() }
    }

    /// Wraps an owned content string.
    pub fn from_string(s: String) -> (r: CSSString)
        ensures
            r.content() == s@,
    {
        CSSString { inner: s }
    }
}

impl WriteValue for CSSString {
    open spec fn rendered(&self) -> Seq<char> {
        seq!['"'] + escaped(self.content()) + seq!['"']
    }

    fn write_value(&self, f: &mut CssWriter) {
        f.write_char('"');
        let e = escape_quotes(self.inner.as_str());
        f.write_str(e.as_str());
        f.write_char('"');
        proof {
            assert(f.contents() =~= old(f).contents() + self.rendered());
        }
    }
}

/// A CSS integer.
#[derive(Clone, Copy, Debug, PartialEq, Eq, Structural)]
pub struct Integer(pub i32);

impl Integer {
    pub fn new(v: i32) -> (r: Integer)
        ensures
            r == (Integer(v)),
    {
        Integer(v)
    }
}

impl From<i32> for Integer {
    fn from(v: i32) -> (r: Integer) {
        Integer(v)
    }
}

impl vstd::std_specs::convert::FromSpecImpl<i32> for Integer {
    open spec fn obeys_from_spec() -> bool {
        true
    }

    open spec fn from_spec(v: i32) -> Integer {
        Integer(v)
    }
}

impl WriteValue for Integer {
    open spec fn rendered(&self) -> Seq<char> {
        int_dec_of(self.0 as int)
    }

    fn write_value(&self, f: &mut CssWriter) {
        let s = i64_to_dec(self.0 as i64);
        f.write_str(s.as_str());
    }
}

/// `<ratio>`: two integers joined by a slash.
#[derive(Clone, Copy, Debug)]
pub struct Ratio(pub Integer, pub Integer);

impl Ratio {
    pub fn width(&self) -> (r: Integer)
        ensures
            r == self.0,
    {
        self.0
    }

    pub fn height(&self) -> (r: Integer)
        ensures
            r == self.1,
    {
        self.1
    }
}

impl WriteValue for Ratio {
    open spec fn rendered(&self) -> Seq<char> {
        self.0.rendered() + seq!['/'] + self.1.rendered()
    }

    fn write_value(&self, f: &mut CssWriter) {
        self.0.write_value(f);
        f.write_char('/');
        self.1.write_value(f);
        proof {
            assert(f.contents() =~= old(f).contents() + self.rendered());
        }
    }
}

/// `<url>`: a quoted address inside `url(...)`.
#[derive(Clone, Debug)]
pub struct Url(pub CSSString);

impl WriteValue for Url {
    open spec fn rendered(&self) -> Seq<char> {
        "url("@ + self.0.rendered() + seq![')']
    }

    fn write_value(&self, f: &mut CssWriter) {
        f.write_str("url(");
        self.0.write_value(f);
        f.write_char(')');
        proof {
            assert(f.contents() =~= old(f).contents() + self.rendered());
        }
    }
}

/// `<custom-ident>`: rendered as its string, verbatim.
#[derive(Clone, Debug)]
pub struct CustomIdent(pub CSSString);

impl WriteValue for CustomIdent {
    open spec fn rendered(&self) -> Seq<char> {
        self.0.rendered()
    }

    fn write_value(&self, f: &mut CssWriter) {
        self.0.write_value(f);
    }
}

/// The renderings of a list of values, in order.
pub open spec fn rendered_list<T: WriteValue>(items: Seq<T>) -> Seq<Seq<char>> {
    items.map_values(|t: T| t.rendered())
}

/// A collection of at least one item, rendered comma-separated.
#[derive(Clone, Debug)]
pub struct Multiple<T>(Vec<T>);

impl<T> Multiple<T> {
    /// The items held.
    pub closed spec fn items(&self) -> Seq<T> {
        self.0@
    }

    fn unchecked_new(v: Vec<T>) -> (r: Multiple<T>)
        ensures
            r.items() == v@,
    {
        Multiple(v)
    }

    /// Wraps a vector without checking that it is non-empty.
    pub fn __unchecked_new(v: Vec<T>) -> (r: Multiple<T>)
        ensures
            r.items() == v@,
    {
        Multiple::unchecked_new(v)
    }

    /// Wraps a vector; nothing for an empty one.
    pub fn new(v: Vec<T>) -> (r: Option<Multiple<T>>)
        ensures
            (match r {
                Some(m) => v@.len() > 0 && m.items() == v@,
                None => v@.len() == 0,
            }),
    {
        if v.len() == 0 {
            None
        } else {
            Some(Multiple::unchecked_new(v))
        }
    }

    /// Wraps a vector known to be non-empty.
    pub fn new_must(v: Vec<T>) -> (r: Multiple<T>)
        requires
            v@.len() > 0,
        ensures
            r.items() == v@,
    {
        Multiple::unchecked_new(v)
    }

    /// A collection of one item.
    pub fn one(v: T) -> (r: Multiple<T>)
        ensures
            r.items() == seq![v],
    {
        let mut items: Vec<T> = Vec::new();
        items.push(v);
        proof {
            assert(items@ =~= seq![items@[0]]);
        }
        Multiple::unchecked_new(items)
    }

    /// How many items are held.
    pub fn count(&self) -> (r: usize)
        ensures
            r == self.items().len(),
    {
        self.0.len()
    }
}

impl<T: WriteValue> WriteValue for Multiple<T> {
    open spec fn rendered(&self) -> Seq<char> {
        join_with(rendered_list(self.items()), seq![','])
    }

    fn write_value(&self, f: &mut CssWriter) {
        let ghost entry = f.contents();
        let mut i: usize = 0;
        while i < self.0.len()
            invariant
                i <= self.items().len(),
                f.contents() == entry + join_with(
                    rendered_list(self.items().take(i as int)),
                    seq![','],
                ),
            decreases self.items().len() - i,
        {
            if i > 0 {
                f.write_char(',');
            }
            self.0[i].write_value(f);
            proof {
                let prev = rendered_list(self.items().take(i as int));
                assert(rendered_list(self.items().take(i + 1)) =~= prev.push(
                    self.items()[i as int].rendered(),
                ));
                lemma_join_with_push(prev, seq![','], self.items()[i as int].rendered());
                assert(f.contents() =~= entry + join_with(
                    rendered_list(self.items().take(i + 1)),
                    seq![','],
                ));
            }
            i = i + 1;
        }
        proof {
            assert(self.items().take(self.items().len() as int) =~= self.items());
        }
    }
}

/// One to four items, as `<item>{1,4}` produces, rendered space-joined.
#[derive(Clone, Copy, Debug)]
pub struct OneToFour<T>(T, Option<(T, Option<(T, Option<T>)>)>);

impl<T> OneToFour<T> {
    /// The nested shape, for contracts.
    pub closed spec fn shape(&self) -> (T, Option<(T, Option<(T, Option<T>)>)>) {
        (self.0, self.1)
    }

    /// Builds the nested shape from up to four items in a row; a later
    /// item is kept only when every earlier one is present.
    pub fn unchecked_from_linear(v0: T, v1: Option<T>, v2: Option<T>, v3: Option<T>) -> (r:
        OneToFour<T>)
        ensures
            r.shape() == (
                (
                    v0,
                    match v1 {
                        Some(a) => Some(
                            (
                                a,
                                match v2 {
                                    Some(b) => Some((b, v3)),
                                    None => None,
                                },
                            ),
                        ),
                        None => None,
                    },
                )
            ),
    {
        match v1 {
            Some(a) => match v2 {
                Some(b) => OneToFour(v0, Some((a, Some((b, v3))))),
                None => OneToFour(v0, Some((a, None))),
            },
            None => OneToFour(v0, None),
        }
    }

    pub fn one(v0: T) -> (r: OneToFour<T>)
        ensures
            r.shape() == ((v0, None::<(T, Option<(T, Option<T>)>)>)),
    {
        OneToFour(v0, None)
    }

    pub fn two(v0: T, v1: T) -> (r: OneToFour<T>)
        ensures
            r.shape() == ((v0, Some((v1, None::<(T, Option<T>)>)))),
    {
        OneToFour(v0, Some((v1, None)))
    }

    pub fn three(v0: T, v1: T, v2: T) -> (r: OneToFour<T>)
        ensures
            r.shape() == ((v0, Some((v1, Some((v2, None::<T>)))))),
    {
        OneToFour(v0, Some((v1, Some((v2, None)))))
    }

    pub fn four(v0: T, v1: T, v2: T, v3: T) -> (r: OneToFour<T>)
        ensures
            r.shape() == ((v0, Some((v1, Some((v2, Some(v3))))))),
    {
        OneToFour(v0, Some((v1, Some((v2, Some(v3))))))
    }

    /// The items flattened to a row of one required and three optional
    /// slots; a slot is filled only when every earlier one is.
    pub fn as_linear(&self) -> (r: (&T, Option<&T>, Option<&T>, Option<&T>))
        ensures
            *r.0 == self.shape().0,
            (match self.shape().1 {
                None => r.1 is None && r.2 is None && r.3 is None,
                Some((v1, rest1)) => {
                    &&& r.1 == Some(&v1)
                    &&& (match rest1 {
                        None => r.2 is None && r.3 is None,
                        Some((v2, rest2)) => {
                            &&& r.2 == Some(&v2)
                            &&& (match rest2 {
                                None => r.3 is None,
                                Some(v3) => r.3 == Some(&v3),
                            })
                        },
                    })
                },
            }),
    {
        let v0 = &self.0;
        match &self.1 {
            None => (v0, None, None, None),
            Some((v1, None)) => (v0, Some(v1), None, None),
            Some((v1, Some((v2, None)))) => (v0, Some(v1), Some(v2), None),
            Some((v1, Some((v2, Some(v3))))) => (v0, Some(v1), Some(v2), Some(v3)),
        }
    }

    /// How many items are present: one to four.
    pub fn count(&self) -> (r: u8)
        ensures
            1 <= r <= 4,
            r == (match self.shape().1 {
                None => 1int,
                Some((_, None)) => 2int,
                Some((_, Some((_, None)))) => 3int,
                Some((_, Some((_, Some(_))))) => 4int,
            }),
    {
        match &self.1 {
            None => 1,
            Some((_, None)) => 2,
            Some((_, Some((_, None)))) => 3,
            Some((_, Some((_, Some(_))))) => 4,
        }
    }
}

impl<T: WriteValue> WriteValue for OneToFour<T> {
    open spec fn rendered(&self) -> Seq<char> {
        self.shape().0.rendered() + (match self.shape().1 {
            None => Seq::<char>::empty(),
            Some((v1, rest1)) => seq![' '] + v1.rendered() + (match rest1 {
                None => Seq::<char>::empty(),
                Some((v2, rest2)) => seq![' '] + v2.rendered() + (match rest2 {
                    None => Seq::<char>::empty(),
                    Some(v3) => seq![' '] + v3.rendered(),
                }),
            }),
        })
    }

    fn write_value(&self, f: &mut CssWriter) {
        self.0.write_value(f);
        match &self.1 {
            None => (),
            Some((v1, rest1)) => {
                f.write_char(' ');
                v1.write_value(f);
                match rest1 {
                    None => (),
                    Some((v2, rest2)) => {
                        f.write_char(' ');
                        v2.write_value(f);
                        match rest2 {
                            None => (),
                            Some(v3) => {
                                f.write_char(' ');
                                v3.write_value(f);
                            },
                        }
                    },
                }
            },
        }
        proof {
            assert(f.contents() =~= old(f).contents() + self.rendered());
        }
    }
}

/// The CSS-wide keywords.
#[derive(Clone, Copy, Debug, PartialEq, Eq, Structural)]
pub enum GlobalValue {
    Inherit,
    Initial,
    Unset,
}

impl WriteValue for GlobalValue {
    open spec fn rendered(&self) -> Seq<char> {
        match self {
            GlobalValue::Inherit => "inherit"@,
            GlobalValue::Initial => "initial"@,
            GlobalValue::Unset => "unset"@,
        }
    }

    fn write_value(&self, f: &mut CssWriter) {
        match self {
            GlobalValue::Inherit => f.write_str("inherit"),
            GlobalValue::Initial => f.write_str("initial"),
            GlobalValue::Unset => f.write_str("unset"),
        }
    }
}

/// `<blend-mode>`.
#[derive(Clone, Copy, Debug, PartialEq, Eq, Structural)]
pub enum BlendMode {
    Normal,
    Multiply,
    Screen,
    Overlay,
    Darken,
    Lighten,
    ColorDodge,
    ColorBurn,
    HardLight,
    SoftLight,
    Difference,
    Exclusion,
    Hue,
    Saturation,
    Color,
    Luminosity,
}

impl WriteValue for BlendMode {
    open spec fn rendered(&self) -> Seq<char> {
        match self {
            BlendMode::Normal => "normal"@,
            BlendMode::Multiply => "multiply"@,
            BlendMode::Screen => "screen"@,
            BlendMode::Overlay => "overlay"@,
            BlendMode::Darken => "darken"@,
            BlendMode::Lighten => "lighten"@,
            BlendMode::ColorDodge => "color-dodge"@,
            BlendMode::ColorBurn => "color-burn"@,
            BlendMode::HardLight => "hard-light"@,
            BlendMode::SoftLight => "soft-light"@,
            BlendMode::Difference => "difference"@,
            BlendMode::Exclusion => "exclusion"@,
            BlendMode::Hue => "hue"@,
            BlendMode::Saturation => "saturation"@,
            BlendMode::Color => "color"@,
            BlendMode::Luminosity => "luminosity"@,
        }
    }

    fn write_value(&self, f: &mut CssWriter) {
        match self {
            BlendMode::Normal => f.write_str("normal"),
            BlendMode::Multiply => f.write_str("multiply"),
            BlendMode::Screen => f.write_str("screen"),
            BlendMode::Overlay => f.write_str("overlay"),
            BlendMode::Darken => f.write_str("darken"),
            BlendMode::Lighten => f.write_str("lighten"),
            BlendMode::ColorDodge => f.write_str("color-dodge"),
            BlendMode::ColorBurn => f.write_str("color-burn"),
            BlendMode::HardLight => f.write_str("hard-light"),
            BlendMode::SoftLight => f.write_str("soft-light"),
            BlendMode::Difference => f.write_str("difference"),
            BlendMode::Exclusion => f.write_str("exclusion"),
            BlendMode::Hue => f.write_str("hue"),
            BlendMode::Saturation => f.write_str("saturation"),
            BlendMode::Color => f.write_str("color"),
            BlendMode::Luminosity => f.write_str("luminosity"),
        }
    }
}

/// `<box>`: the box-edge keywords.
#[derive(Clone, Copy, Debug, PartialEq, Eq, Structural)]
pub enum CSSBox {
    BorderBox,
    PaddingBox,
    ContentBox,
}

impl WriteValue for CSSBox {
    open spec fn rendered(&self) -> Seq<char> {
        match self {
            CSSBox::BorderBox => "border-box"@,
            CSSBox::PaddingBox => "padding-box"@,
            CSSBox::ContentBox => "content-box"@,
        }
    }

    fn write_value(&self, f: &mut CssWriter) {
        match self {
            CSSBox::BorderBox => f.write_str("border-box"),
            CSSBox::PaddingBox => f.write_str("padding-box"),
            CSSBox::ContentBox => f.write_str("content-box"),
        }
    }
}

/// `<shape-box>`: a box keyword, or the margin box.
#[derive(Clone, Copy, Debug, PartialEq, Eq, Structural)]
pub enum ShapeBox {
    Box(CSSBox),
    MarginBox,
}

impl WriteValue for ShapeBox {
    open spec fn rendered(&self) -> Seq<char> {
        match self {
            ShapeBox::Box(b) => b.rendered(),
            ShapeBox::MarginBox => "margin-box"@,
        }
    }

    fn write_value(&self, f: &mut CssWriter) {
        match self {
            ShapeBox::Box(b) => b.write_value(f),
            ShapeBox::MarginBox => f.write_str("margin-box"),
        }
    }
}

/// The anchors a horizontal position may name.
#[derive(Clone, Copy, Debug, PartialEq, Eq, Structural)]
pub enum PositionHorizontalAnchor {
    Left,
    Right,
}

impl WriteValue for PositionHorizontalAnchor {
    open spec fn rendered(&self) -> Seq<char> {
        match self {
            PositionHorizontalAnchor::Left => "left"@,
            PositionHorizontalAnchor::Right => "right"@,
        }
    }

    fn write_value(&self, f: &mut CssWriter) {
        match self {
            PositionHorizontalAnchor::Left => f.write_str("left"),
            PositionHorizontalAnchor::Right => f.write_str("right"),
        }
    }
}

/// The anchors a vertical position may name.
#[derive(Clone, Copy, Debug, PartialEq, Eq, Structural)]
pub enum PositionVerticalAnchor {
    Top,
    Bottom,
}

impl WriteValue for PositionVerticalAnchor {
    open spec fn rendered(&self) -> Seq<char> {
        match self {
            PositionVerticalAnchor::Top => "top"@,
            PositionVerticalAnchor::Bottom => "bottom"@,
        }
    }

    fn write_value(&self, f: &mut CssWriter) {
        match self {
            PositionVerticalAnchor::Top => f.write_str("top"),
            PositionVerticalAnchor::Bottom => f.write_str("bottom"),
        }
    }
}

/// The image-direction tags.
#[derive(Clone, Copy, Debug, PartialEq, Eq, Structural)]
pub enum ImageTags {
    Ltr,
    Rtl,
}

impl WriteValue for ImageTags {
    open spec fn rendered(&self) -> Seq<char> {
        match self {
            ImageTags::Ltr => "ltr"@,
            ImageTags::Rtl => "rtl"@,
        }
    }

    fn write_value(&self, f: &mut CssWriter) {
        match self {
            ImageTags::Ltr => f.write_str("ltr"),
            ImageTags::Rtl => f.write_str("rtl"),
        }
    }
}

/// The ending shapes of a radial gradient.
#[derive(Clone, Copy, Debug, PartialEq, Eq, Structural)]
pub enum GradientEndingShape {
    Circle,
    Ellipse,
}

impl WriteValue for GradientEndingShape {
    open spec fn rendered(&self) -> Seq<char> {
        match self {
            GradientEndingShape::Circle => "circle"@,
            GradientEndingShape::Ellipse => "ellipse"@,
        }
    }

    fn write_value(&self, f: &mut CssWriter) {
        match self {
            GradientEndingShape::Circle => f.write_str("circle"),
            GradientEndingShape::Ellipse => f.write_str("ellipse"),
        }
    }
}

/// The kinds an `attr()` reference may be read as.
#[derive(Clone, Copy, Debug, PartialEq, Eq, Structural)]
pub enum AttrKind {
    String,
    Color,
    Url,
    Integer,
    Number,
    Length,
    Angle,
    Time,
    Frequency,
}

impl WriteValue for AttrKind {
    open spec fn rendered(&self) -> Seq<char> {
        match self {
            AttrKind::String => "string"@,
            AttrKind::Color => "color"@,
            AttrKind::Url => "url"@,
            AttrKind::Integer => "integer"@,
            AttrKind::Number => "number"@,
            AttrKind::Length => "length"@,
            AttrKind::Angle => "angle"@,
            AttrKind::Time => "time"@,
            AttrKind::Frequency => "frequency"@,
        }
    }

    fn write_value(&self, f: &mut CssWriter) {
        match self {
            AttrKind::String => f.write_str("string"),
            AttrKind::Color => f.write_str("color"),
            AttrKind::Url => f.write_str("url"),
            AttrKind::Integer => f.write_str("integer"),
            AttrKind::Number => f.write_str("number"),
            AttrKind::Length => f.write_str("length"),
            AttrKind::Angle => f.write_str("angle"),
            AttrKind::Time => f.write_str("time"),
            AttrKind::Frequency => f.write_str("frequency"),
        }
    }
}

/// `<attachment>`.
#[derive(Clone, Copy, Debug, PartialEq, Eq, Structural)]
pub enum Attachment {
    Fixed,
    Local,
    Scroll,
}

impl WriteValue for Attachment {
    open spec fn rendered(&self) -> Seq<char> {
        match self {
            Attachment::Fixed => "fixed"@,
            Attachment::Local => "local"@,
            Attachment::Scroll => "scroll"@,
        }
    }

    fn write_value(&self, f: &mut CssWriter) {
        match self {
            Attachment::Fixed => f.write_str("fixed"),
            Attachment::Local => f.write_str("local"),
            Attachment::Scroll => f.write_str("scroll"),
        }
    }
}

/// `<line-style>`.
#[derive(Clone, Copy, Debug, PartialEq, Eq, Structural)]
pub enum LineStyle {
    NoStyle,
    Hidden,
    Dotted,
    Dashed,
    Solid,
    Double,
    Groove,
    Ridge,
    Inset,
    Outset,
}

impl WriteValue for LineStyle {
    open spec fn rendered(&self) -> Seq<char> {
        match self {
            LineStyle::NoStyle => "none"@,
            LineStyle::Hidden => "hidden"@,
            LineStyle::Dotted => "dotted"@,
            LineStyle::Dashed => "dashed"@,
            LineStyle::Solid => "solid"@,
            LineStyle::Double => "double"@,
            LineStyle::Groove => "groove"@,
            LineStyle::Ridge => "ridge"@,
            LineStyle::Inset => "inset"@,
            LineStyle::Outset => "outset"@,
        }
    }

    fn write_value(&self, f: &mut CssWriter) {
        match self {
            LineStyle::NoStyle => f.write_str("none"),
            LineStyle::Hidden => f.write_str("hidden"),
            LineStyle::Dotted => f.write_str("dotted"),
            LineStyle::Dashed => f.write_str("dashed"),
            LineStyle::Solid => f.write_str("solid"),
            LineStyle::Double => f.write_str("double"),
            LineStyle::Groove => f.write_str("groove"),
            LineStyle::Ridge => f.write_str("ridge"),
            LineStyle::Inset => f.write_str("inset"),
            LineStyle::Outset => f.write_str("outset"),
        }
    }
}

/// One repeat-style keyword.
#[derive(Clone, Copy, Debug, PartialEq, Eq, Structural)]
pub enum BackgroundRepeatStyle {
    Repeat,
    Space,
    Round,
    NoRepeat,
}

impl WriteValue for BackgroundRepeatStyle {
    open spec fn rendered(&self) -> Seq<char> {
        match self {
            BackgroundRepeatStyle::Repeat => "repeat"@,
            BackgroundRepeatStyle::Space => "space"@,
            BackgroundRepeatStyle::Round => "round"@,
            BackgroundRepeatStyle::NoRepeat => "no-repeat"@,
        }
    }

    fn write_value(&self, f: &mut CssWriter) {
        match self {
            BackgroundRepeatStyle::Repeat => f.write_str("repeat"),
            BackgroundRepeatStyle::Space => f.write_str("space"),
            BackgroundRepeatStyle::Round => f.write_str("round"),
            BackgroundRepeatStyle::NoRepeat => f.write_str("no-repeat"),
        }
    }
}

/// One background-repeat item: a pair of styles, or a shorthand keyword.
#[derive(Clone, Copy, Debug, PartialEq, Eq, Structural)]
pub enum BackgroundRepeatItem {
    XY(BackgroundRepeatStyle, Option<BackgroundRepeatStyle>),
    RepeatX,
    RepeatY,
}

impl WriteValue for BackgroundRepeatItem {
    open spec fn rendered(&self) -> Seq<char> {
        match self {
            BackgroundRepeatItem::XY(x, oy) => x.rendered() + (match oy {
                Some(y) => seq![' '] + y.rendered(),
                None => Seq::<char>::empty(),
            }),
            BackgroundRepeatItem::RepeatX => "repeat-x"@,
            BackgroundRepeatItem::RepeatY => "repeat-y"@,
        }
    }

    fn write_value(&self, f: &mut CssWriter) {
        match self {
            BackgroundRepeatItem::XY(x, oy) => {
                x.write_value(f);
                match oy {
                    Some(y) => {
                        f.write_char(' ');
                        y.write_value(f);
                    },
                    None => (),
                }
                proof {
                    assert(f.contents() =~= old(f).contents() + self.rendered());
                }
            },
            BackgroundRepeatItem::RepeatX => f.write_str("repeat-x"),
            BackgroundRepeatItem::RepeatY => f.write_str("repeat-y"),
        }
    }
}

/// One background-clip item: a box keyword, or an experimental keyword.
#[derive(Clone, Copy, Debug, PartialEq, Eq, Structural)]
pub enum BackgroundClipItem {
    Box(CSSBox),
    Border,
    Text,
}

impl WriteValue for BackgroundClipItem {
    open spec fn rendered(&self) -> Seq<char> {
        match self {
            BackgroundClipItem::Box(b) => b.rendered(),
            BackgroundClipItem::Border => "border"@,
            BackgroundClipItem::Text => "text"@,
        }
    }

    fn write_value(&self, f: &mut CssWriter) {
        match self {
            BackgroundClipItem::Box(b) => b.write_value(f),
            BackgroundClipItem::Border => f.write_str("border"),
            BackgroundClipItem::Text => f.write_str("text"),
        }
    }
}

/// One background-origin item: a box keyword.
#[derive(Clone, Copy, Debug, PartialEq, Eq, Structural)]
pub enum BackgroundOriginItem {
    BorderBox,
    PaddingBox,
    ContentBox,
}

impl WriteValue for BackgroundOriginItem {
    open spec fn rendered(&self) -> Seq<char> {
        match self {
            BackgroundOriginItem::BorderBox => "border-box"@,
            BackgroundOriginItem::PaddingBox => "padding-box"@,
            BackgroundOriginItem::ContentBox => "content-box"@,
        }
    }

    fn write_value(&self, f: &mut CssWriter) {
        match self {
            BackgroundOriginItem::BorderBox => f.write_str("border-box"),
            BackgroundOriginItem::PaddingBox => f.write_str("padding-box"),
            BackgroundOriginItem::ContentBox => f.write_str("content-box"),
        }
    }
}

/// The `background-attachment` declaration.
#[derive(Clone, Debug)]
pub struct BackgroundAttachment(pub Multiple<Attachment>);

impl WriteValue for BackgroundAttachment {
    open spec fn rendered(&self) -> Seq<char> {
        self.0.rendered()
    }

    fn write_value(&self, f: &mut CssWriter) {
        self.0.write_value(f);
    }
}

impl WriteDeclaration for BackgroundAttachment {
    open spec fn property(&self) -> Seq<char> {
        "background-attachment"@
    }

    fn write_property(&self, f: &mut CssWriter) {
        f.write_str("background-attachment");
    }
}

/// The `background-clip` declaration.
#[derive(Clone, Debug)]
pub struct BackgroundClip(pub Multiple<BackgroundClipItem>);

impl WriteValue for BackgroundClip {
    open spec fn rendered(&self) -> Seq<char> {
        self.0.rendered()
    }

    fn write_value(&self, f: &mut CssWriter) {
        self.0.write_value(f);
    }
}

impl WriteDeclaration for BackgroundClip {
    open spec fn property(&self) -> Seq<char> {
        "background-clip"@
    }

    fn write_property(&self, f: &mut CssWriter) {
        f.write_str("background-clip");
    }
}

/// The `background-origin` declaration.
#[derive(Clone, Debug)]
pub struct BackgroundOrigin(pub Multiple<CSSBox>);

impl WriteValue for BackgroundOrigin {
    open spec fn rendered(&self) -> Seq<char> {
        self.0.rendered()
    }

    fn write_value(&self, f: &mut CssWriter) {
        self.0.write_value(f);
    }
}

impl WriteDeclaration for BackgroundOrigin {
    open spec fn property(&self) -> Seq<char> {
        "background-origin"@
    }

    fn write_property(&self, f: &mut CssWriter) {
        f.write_str("background-origin");
    }
}

/// The `background-repeat` declaration.
#[derive(Clone, Debug)]
pub struct BackgroundRepeat(pub Multiple<BackgroundRepeatItem>);

impl WriteValue for BackgroundRepeat {
    open spec fn rendered(&self) -> Seq<char> {
        self.0.rendered()
    }

    fn write_value(&self, f: &mut CssWriter) {
        self.0.write_value(f);
    }
}

impl WriteDeclaration for BackgroundRepeat {
    open spec fn property(&self) -> Seq<char> {
        "background-repeat"@
    }

    fn write_property(&self, f: &mut CssWriter) {
        f.write_str("background-repeat");
    }
}

/// The `border-style` declaration: one to four line styles.
#[derive(Clone, Copy, Debug)]
pub struct BorderStyle(pub OneToFour<LineStyle>);

impl WriteValue for BorderStyle {
    open spec fn rendered(&self) -> Seq<char> {
        self.0.rendered()
    }

    fn write_value(&self, f: &mut CssWriter) {
        self.0.write_value(f);
    }
}

impl WriteDeclaration for BorderStyle {
    open spec fn property(&self) -> Seq<char> {
        "border-style"@
    }

    fn write_property(&self, f: &mut CssWriter) {
        f.write_str("border-style");
    }
}

/// `<transform-function>`: the function heads; their arguments carry
/// numeric values whose rendering lives with the consumers.
#[derive(Clone, Copy, Debug, PartialEq, Eq, Structural)]
pub enum TransformFunction {
    Matrix,
    Matrix3d,
    Perspective,
    Rotate,
    Rotate3d,
    RotateX,
    RotateY,
    RotateZ,
    Scale,
    Scale3d,
    ScaleX,
    ScaleY,
    ScaleZ,
    Skew,
    SkewX,
    SkewY,
    Translate,
    Translate3d,
    TranslateX,
    TranslateY,
    TranslateZ,
}

/// A value type whose `attr()` fallback is already a plain value.
pub trait ResolvedType {

}

impl ResolvedType for Integer {

}

impl ResolvedType for CSSString {

}

} // verus!
