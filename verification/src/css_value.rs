//! The serialization attribute engine: a small declarative vocabulary
//! (dimension, keyword, function, value, field) describes how a field or
//! variant of a value type is rendered, and the engine turns a configured
//! field list into canonical CSS text.

use vstd::prelude::*;
use crate::text::{join_with, kebab_of, lemma_join_with_push, lowered, to_kebab, to_lowercased};
use crate::writer::CssWriter;

verus! {

/// Per-field configuration from the `field` attribute.
pub struct FieldAttr {
    /// Literal written once before the field, when the field is written.
    pub prefix: Option<String>,
    /// Literal written once after the field, when the field is written.
    pub suffix: Option<String>,
    /// Forces optional handling when the field's content is assembled;
    /// the content then carries the presence or absence.
    pub option: bool,
    /// Forces collection handling when the field's content is assembled.
    pub iter: bool,
    /// Marks a collection whose elements are individually optional.
    pub iter_option: bool,
    /// Separator between collection elements; a comma when absent.
    pub iter_separator: Option<String>,
}

/// What a single field of a value holds, already rendered element-wise.
pub enum FieldContent {
    /// A single present value.
    Value(String),
    /// An absent optional value: the field writes nothing, not even its
    /// prefix, suffix or separator boundary.
    Nothing,
    /// A collection of values; an empty collection writes nothing.
    Items(Vec<String>),
    /// A collection of individually optional values.
    OptItems(Vec<Option<String>>),
    /// The output of this field's custom formatting hook, which replaces
    /// the value text but keeps prefix and suffix handling.
    Custom(String),
}

/// One field of a value, with its configuration.
pub struct CssField {
    pub attr: Option<FieldAttr>,
    pub content: FieldContent,
}

/// The shape attribute of a field or variant: at most one of these may be
/// attached, which the type makes unrepresentable.
pub enum ShapeAttr {
    /// `dimension(zero?, unit?)`: a number followed by a unit, or the bare
    /// character `0`.
    Dimension { zero: bool, unit: Option<String> },
    /// `keyword(value?)`: a fixed literal.
    Keyword { value: Option<String> },
    /// `function(name?, separator?)`: `name(arg,arg,...)`.
    Function { name: Option<String>, separator: Option<String> },
    /// `value(prefix?, suffix?, separator?, write_fn?)`: joined fields with
    /// optional framing, or a custom hook that overrides value writing.
    Value {
        prefix: Option<String>,
        suffix: Option<String>,
        separator: Option<String>,
        write_fn: bool,
    },
}

/// A structural precondition of a shape was violated.
#[derive(Clone, Copy, Debug, PartialEq, Eq, Structural)]
pub enum ShapeError {
    /// A zero dimension must not have any fields.
    ZeroDimensionFields,
    /// A dimension must have exactly one field.
    DimensionSingleField,
    /// A keyword must not have any fields.
    KeywordFields,
    /// A value shape without a custom hook must have at least one field.
    ValueFields,
    /// A value shape with a custom hook needs the hook's output.
    MissingCustom,
    /// Without a shape attribute exactly one field is expected.
    SingleField,
}

impl ShapeError {
    /// The diagnostic text for this error.
    pub fn message(&self) -> (r: &'static str)
        ensures
            r@ == self.spec_message(),
    {
        match self {
            ShapeError::ZeroDimensionFields => "zero dimension must not have any fields",
            ShapeError::DimensionSingleField => "dimension must have a single unnamed field",
            ShapeError::KeywordFields => "keyword must not have any fields",
            ShapeError::ValueFields => "value must have at least one field",
            ShapeError::MissingCustom => "value write_fn output is missing",
            ShapeError::SingleField => "expected a single unnamed field",
        }
    }

    pub open spec fn spec_message(&self) -> Seq<char> {
        match self {
            ShapeError::ZeroDimensionFields => "zero dimension must not have any fields"@,
            ShapeError::DimensionSingleField => "dimension must have a single unnamed field"@,
            ShapeError::KeywordFields => "keyword must not have any fields"@,
            ShapeError::ValueFields => "value must have at least one field"@,
            ShapeError::MissingCustom => "value write_fn output is missing"@,
            ShapeError::SingleField => "expected a single unnamed field"@,
        }
    }
}

/// The separator used between a collection field's elements.
pub open spec fn iter_sep_of(attr: Option<FieldAttr>) -> Seq<char> {
    match attr {
        Some(a) => match a.iter_separator {
            Some(s) => s@,
            None => seq![','],
        },
        None => seq![','],
    }
}

/// The field's prefix text, empty when not configured.
pub open spec fn prefix_of(attr: Option<FieldAttr>) -> Seq<char> {
    match attr {
        Some(a) => match a.prefix {
            Some(p) => p@,
            None => Seq::empty(),
        },
        None => Seq::empty(),
    }
}

/// The field's suffix text, empty when not configured.
pub open spec fn suffix_of(attr: Option<FieldAttr>) -> Seq<char> {
    match attr {
        Some(a) => match a.suffix {
            Some(s) => s@,
            None => Seq::empty(),
        },
        None => Seq::empty(),
    }
}

/// The views of a sequence of strings.
pub open spec fn str_views(items: Seq<String>) -> Seq<Seq<char>> {
    items.map_values(|s: String| s@)
}

/// The views of the present elements of a sequence of optional strings,
/// in order.
pub open spec fn opt_views(items: Seq<Option<String>>) -> Seq<Seq<char>>
    decreases items.len(),
{
    if items.len() == 0 {
        Seq::empty()
    } else {
        (match items[0] {
            Some(s) => seq![s@],
            None => Seq::<Seq<char>>::empty(),
        }) + opt_views(items.drop_first())
    }
}

/// Appending an element extends the present views by that element's view,
/// when it is present.
pub proof fn lemma_opt_views_push(items: Seq<Option<String>>, x: Option<String>)
    ensures
        opt_views(items.push(x)) == opt_views(items) + (match x {
            Some(s) => seq![s@],
            None => Seq::<Seq<char>>::empty(),
        }),
    decreases items.len(),
{
    if items.len() == 0 {
        assert(items.push(x)[0] == x);
        assert(items.push(x).drop_first() =~= Seq::<Option<String>>::empty());
        assert(opt_views(Seq::<Option<String>>::empty()) =~= Seq::<Seq<char>>::empty());
        assert(opt_views(items.push(x)) =~= opt_views(items) + (match x {
            Some(s) => seq![s@],
            None => Seq::<Seq<char>>::empty(),
        }));
    } else {
        assert(items.push(x)[0] == items[0]);
        assert(items.push(x).drop_first() =~= items.drop_first().push(x));
        lemma_opt_views_push(items.drop_first(), x);
        assert(opt_views(items.push(x)) =~= opt_views(items) + (match x {
            Some(s) => seq![s@],
            None => Seq::<Seq<char>>::empty(),
        }));
    }
}

/// Whether the field writes anything at all: an absent optional field and
/// an empty collection write nothing.
pub open spec fn field_present(field: CssField) -> bool {
    match field.content {
        FieldContent::Value(_) => true,
        FieldContent::Nothing => false,
        FieldContent::Items(v) => v@.len() > 0,
        FieldContent::OptItems(_) => true,
        FieldContent::Custom(_) => true,
    }
}

/// The field's value text, before prefix and suffix framing.
pub open spec fn field_inner(field: CssField) -> Seq<char> {
    match field.content {
        FieldContent::Value(s) => s@,
        FieldContent::Nothing => Seq::empty(),
        FieldContent::Items(v) => join_with(str_views(v@), iter_sep_of(field.attr)),
        FieldContent::OptItems(v) => join_with(opt_views(v@), iter_sep_of(field.attr)),
        FieldContent::Custom(s) => s@,
    }
}

/// The full text a present field writes: prefix, value text, suffix.
pub open spec fn field_segment(field: CssField) -> Seq<char> {
    prefix_of(field.attr) + field_inner(field) + suffix_of(field.attr)
}

/// What a field standing alone writes: its segment when present, nothing
/// otherwise.
pub open spec fn field_written(field: CssField) -> Seq<char> {
    if field_present(field) {
        field_segment(field)
    } else {
        Seq::empty()
    }
}

/// The segments of the present fields, in declaration order.
pub open spec fn present_segments(fields: Seq<CssField>) -> Seq<Seq<char>>
    decreases fields.len(),
{
    if fields.len() == 0 {
        Seq::empty()
    } else {
        (if field_present(fields[0]) {
            seq![field_segment(fields[0])]
        } else {
            Seq::<Seq<char>>::empty()
        }) + present_segments(fields.drop_first())
    }
}

pub proof fn lemma_present_segments_push(fields: Seq<CssField>, x: CssField)
    ensures
        present_segments(fields.push(x)) == present_segments(fields) + (if field_present(x) {
            seq![field_segment(x)]
        } else {
            Seq::<Seq<char>>::empty()
        }),
    decreases fields.len(),
{
    if fields.len() == 0 {
        assert(fields.push(x)[0] == x);
        assert(fields.push(x).drop_first() =~= Seq::<CssField>::empty());
        assert(present_segments(Seq::<CssField>::empty()) =~= Seq::<Seq<char>>::empty());
        assert(present_segments(fields.push(x)) =~= present_segments(fields) + (if field_present(
            x,
        ) {
            seq![field_segment(x)]
        } else {
            Seq::<Seq<char>>::empty()
        }));
    } else {
        assert(fields.push(x)[0] == fields[0]);
        assert(fields.push(x).drop_first() =~= fields.drop_first().push(x));
        lemma_present_segments_push(fields.drop_first(), x);
        assert(present_segments(fields.push(x)) =~= present_segments(fields) + (if field_present(
            x,
        ) {
            seq![field_segment(x)]
        } else {
            Seq::<Seq<char>>::empty()
        }));
    }
}

/// The join algorithm of the `function` and `value` shapes: the present
/// fields' segments joined by the separator. An absent field contributes
/// neither its segment nor a separator boundary, so the text never holds a
/// leading, trailing or doubled separator.
pub open spec fn joined_fields(fields: Seq<CssField>, sep: Seq<char>) -> Seq<char> {
    join_with(present_segments(fields), sep)
}

/// Join-algorithm invariant: an absent field contributes nothing at all to
/// the joined text — dropping it from the field list leaves the rendering
/// unchanged, so presence or absence of one field never moves the boundary
/// of another.
/// An absent field contributes no segment: dropping it leaves the present
/// segments unchanged.
pub proof fn lemma_present_segments_remove_absent(fields: Seq<CssField>, i: int)
    requires
        0 <= i < fields.len(),
        !field_present(fields[i]),
    ensures
        present_segments(fields.remove(i)) == present_segments(fields),
    decreases fields.len(),
{
    if i == 0 {
        assert(fields.remove(0) =~= fields.drop_first());
        assert(present_segments(fields) =~= present_segments(fields.drop_first()));
    } else {
        assert(fields.remove(i).drop_first() =~= fields.drop_first().remove(i - 1));
        assert(fields.drop_first()[i - 1] == fields[i]);
        lemma_present_segments_remove_absent(fields.drop_first(), i - 1);
        assert(fields.remove(i)[0] == fields[0]);
        assert(present_segments(fields.remove(i)) =~= present_segments(fields));
    }
}

pub proof fn lemma_join_absent_field(fields: Seq<CssField>, sep: Seq<char>, i: int)
    requires
        0 <= i < fields.len(),
        !field_present(fields[i]),
    ensures
        joined_fields(fields, sep) == joined_fields(fields.remove(i), sep),
{
    lemma_present_segments_remove_absent(fields, i);
}

fn iter_sep<'a>(attr: &'a Option<FieldAttr>) -> (r: &'a str)
    ensures
        r@ == iter_sep_of(*attr),
{
    proof {
        reveal_strlit(",");
        assert(","@ =~= seq![',']);
    }
    match attr {
        Some(a) => match &a.iter_separator {
            Some(s) => s.as_str(),
            None => ",",
        },
        None => ",",
    }
}

fn write_joined_strings(items: &Vec<String>, sep: &str, f: &mut CssWriter)
    ensures
        final(f).contents() == old(f).contents() + join_with(str_views(items@), sep@),
{
    let ghost entry = f.contents();
    let mut i: usize = 0;
    while i < items.len()
        invariant
            i <= items@.len(),
            f.contents() == entry + join_with(str_views(items@.take(i as int)), sep@),
        decreases items@.len() - i,
    {
        if i > 0 {
            f.write_str(sep);
        }
        f.write_str(items[i].as_str());
        proof {
            let prev = str_views(items@.take(i as int));
            assert(str_views(items@.take(i + 1)) =~= prev.push(items@[i as int]@));
            lemma_join_with_push(prev, sep@, items@[i as int]@);
            assert(f.contents() =~= entry + join_with(str_views(items@.take(i + 1)), sep@));
        }
        i = i + 1;
    }
    proof {
        assert(items@.take(items@.len() as int) =~= items@);
    }
}

fn write_joined_opt_strings(items: &Vec<Option<String>>, sep: &str, f: &mut CssWriter)
    ensures
        final(f).contents() == old(f).contents() + join_with(opt_views(items@), sep@),
{
    let ghost entry = f.contents();
    let mut wrote_first = false;
    let mut i: usize = 0;
    while i < items.len()
        invariant
            i <= items@.len(),
            f.contents() == entry + join_with(opt_views(items@.take(i as int)), sep@),
            wrote_first == (opt_views(items@.take(i as int)).len() > 0),
        decreases items@.len() - i,
    {
        let ghost prev = opt_views(items@.take(i as int));
        proof {
            assert(items@.take(i + 1) =~= items@.take(i as int).push(items@[i as int]));
            lemma_opt_views_push(items@.take(i as int), items@[i as int]);
        }
        match &items[i] {
            Some(s) => {
                if wrote_first {
                    f.write_str(sep);
                } else {
                    wrote_first = true;
                }
                f.write_str(s.as_str());
                proof {
                    assert(opt_views(items@.take(i + 1)) =~= prev.push(items@[i as int]->Some_0@));
                    lemma_join_with_push(prev, sep@, items@[i as int]->Some_0@);
                    assert(f.contents() =~= entry + join_with(opt_views(items@.take(i + 1)), sep@));
                }
            },
            None => {
                proof {
                    assert(opt_views(items@.take(i + 1)) =~= prev);
                }
            },
        }
        i = i + 1;
    }
    proof {
        assert(items@.take(items@.len() as int) =~= items@);
    }
}

fn write_field_inner(field: &CssField, f: &mut CssWriter)
    ensures
        final(f).contents() == old(f).contents() + field_inner(*field),
{
    match &field.content {
        FieldContent::Value(s) => f.write_str(s.as_str()),
        FieldContent::Nothing => {
            proof {
                assert(f.contents() =~= old(f).contents() + field_inner(*field));
            }
        },
        FieldContent::Items(v) => {
            let sep = iter_sep(&field.attr);
            write_joined_strings(v, sep, f);
        },
        FieldContent::OptItems(v) => {
            let sep = iter_sep(&field.attr);
            write_joined_opt_strings(v, sep, f);
        },
        FieldContent::Custom(s) => f.write_str(s.as_str()),
    }
}

fn write_field_segment(field: &CssField, f: &mut CssWriter)
    ensures
        final(f).contents() == old(f).contents() + field_segment(*field),
{
    match &field.attr {
        Some(a) => match &a.prefix {
            Some(p) => f.write_str(p.as_str()),
            None => (),
        },
        None => (),
    }
    write_field_inner(field, f);
    match &field.attr {
        Some(a) => match &a.suffix {
            Some(s) => f.write_str(s.as_str()),
            None => (),
        },
        None => (),
    }
    proof {
        assert(f.contents() =~= old(f).contents() + field_segment(*field));
    }
}

fn field_is_present(field: &CssField) -> (r: bool)
    ensures
        r == field_present(*field),
{
    match &field.content {
        FieldContent::Value(_) => true,
        FieldContent::Nothing => false,
        FieldContent::Items(v) => v.len() > 0,
        FieldContent::OptItems(_) => true,
        FieldContent::Custom(_) => true,
    }
}

/// Writes one field standing alone: its segment when present, nothing
/// otherwise.
pub fn write_field(field: &CssField, f: &mut CssWriter)
    ensures
        final(f).contents() == old(f).contents() + field_written(*field),
{
    if field_is_present(field) {
        write_field_segment(field, f);
    }
}

/// Writes the fields joined by the separator: a present field's segment is
/// preceded by the separator exactly when an earlier field was written.
pub fn join_fields(fields: &Vec<CssField>, sep: &str, f: &mut CssWriter)
    ensures
        final(f).contents() == old(f).contents() + joined_fields(fields@, sep@),
{
    let ghost entry = f.contents();
    let mut wrote_first = false;
    let mut i: usize = 0;
    while i < fields.len()
        invariant
            i <= fields@.len(),
            f.contents() == entry + join_with(present_segments(fields@.take(i as int)), sep@),
            wrote_first == (present_segments(fields@.take(i as int)).len() > 0),
        decreases fields@.len() - i,
    {
        let ghost prev = present_segments(fields@.take(i as int));
        proof {
            assert(fields@.take(i + 1) =~= fields@.take(i as int).push(fields@[i as int]));
            lemma_present_segments_push(fields@.take(i as int), fields@[i as int]);
        }
        if field_is_present(&fields[i]) {
            if wrote_first {
                f.write_str(sep);
            } else {
                wrote_first = true;
            }
            write_field_segment(&fields[i], f);
            proof {
                assert(present_segments(fields@.take(i + 1)) =~= prev.push(
                    field_segment(fields@[i as int]),
                ));
                lemma_join_with_push(prev, sep@, field_segment(fields@[i as int]));
                assert(f.contents() =~= entry + join_with(
                    present_segments(fields@.take(i + 1)),
                    sep@,
                ));
            }
        } else {
            proof {
                assert(present_segments(fields@.take(i + 1)) =~= prev);
            }
        }
        i = i + 1;
    }
    proof {
        assert(fields@.take(fields@.len() as int) =~= fields@);
    }
}

/// The structural precondition of the shape, checked against the field
/// count and the presence of a custom hook's output.
pub open spec fn shape_error(
    attr: Option<ShapeAttr>,
    has_custom: bool,
    n_fields: nat,
) -> Option<ShapeError> {
    match attr {
        Some(ShapeAttr::Dimension { zero, .. }) => if zero && n_fields != 0 {
            Some(ShapeError::ZeroDimensionFields)
        } else if !zero && n_fields != 1 {
            Some(ShapeError::DimensionSingleField)
        } else {
            None
        },
        Some(ShapeAttr::Keyword { .. }) => if n_fields != 0 {
            Some(ShapeError::KeywordFields)
        } else {
            None
        },
        Some(ShapeAttr::Function { .. }) => None,
        Some(ShapeAttr::Value { write_fn, .. }) => if write_fn && !has_custom {
            Some(ShapeError::MissingCustom)
        } else if !write_fn && n_fields == 0 {
            Some(ShapeError::ValueFields)
        } else {
            None
        },
        None => if n_fields != 1 {
            Some(ShapeError::SingleField)
        } else {
            None
        },
    }
}

/// The text a well-formed shape writes. Default names come from the
/// container's name: a dimension unit is its lower-casing, a keyword or
/// function name its kebab-casing.
pub open spec fn shape_rendered(
    attr: Option<ShapeAttr>,
    container_name: Seq<char>,
    custom: Option<String>,
    fields: Seq<CssField>,
) -> Seq<char> {
    match attr {
        Some(ShapeAttr::Dimension { zero, unit }) => if zero {
            seq!['0']
        } else {
            field_written(fields[0]) + (match unit {
                Some(u) => u@,
                None => lowered(container_name),
            })
        },
        Some(ShapeAttr::Keyword { value }) => match value {
            Some(v) => v@,
            None => kebab_of(container_name),
        },
        Some(ShapeAttr::Function { name, separator }) => (match name {
            Some(n) => n@,
            None => kebab_of(container_name),
        }) + seq!['('] + joined_fields(
            fields,
            match separator {
                Some(s) => s@,
                None => seq![','],
            },
        ) + seq![')'],
        Some(ShapeAttr::Value { prefix, suffix, separator, write_fn }) => (match prefix {
            Some(p) => p@,
            None => Seq::<char>::empty(),
        }) + (if write_fn {
            match custom {
                Some(c) => c@,
                None => Seq::<char>::empty(),
            }
        } else {
            joined_fields(
                fields,
                match separator {
                    Some(s) => s@,
                    None => seq![' '],
                },
            )
        }) + (match suffix {
            Some(s) => s@,
            None => Seq::<char>::empty(),
        }),
        None => field_written(fields[0]),
    }
}

/// Renders a field or variant under its shape attribute. `container_name` is the
/// container's declared name, used for default units and names; `custom`
/// is the output of the `value` shape's formatting hook when one is
/// configured. On an error nothing is written.
pub fn write_for_fields(
    attr: &Option<ShapeAttr>,
    container_name: &str,
    custom: &Option<String>,
    fields: &Vec<CssField>,
    f: &mut CssWriter,
) -> (r: Result<(), ShapeError>)
    ensures
        match r {
            Ok(()) => shape_error(*attr, custom is Some, fields@.len() as nat) is None && final(f).contents() == old(f).contents() + shape_rendered(
                *attr,
                container_name@,
                *custom,
                fields@,
            ),
            Err(e) => Some(e) == shape_error(*attr, custom is Some, fields@.len() as nat) && final(f).contents() == old(f).contents(),
        },
{
    match attr {
        Some(ShapeAttr::Dimension { zero, unit }) => {
            if *zero {
                if fields.len() != 0 {
                    return Err(ShapeError::ZeroDimensionFields);
                }
                f.write_char('0');
                proof {
                    assert(f.contents() =~= old(f).contents() + shape_rendered(
                        *attr,
                        container_name@,
                        *custom,
                        fields@,
                    ));
                }
                Ok(())
            } else {
                if fields.len() != 1 {
                    return Err(ShapeError::DimensionSingleField);
                }
                write_field(&fields[0], f);
                match unit {
                    Some(u) => f.write_str(u.as_str()),
                    None => {
                        let u = to_lowercased(container_name);
                        f.write_str(u.as_str());
                    },
                }
                proof {
                    assert(f.contents() =~= old(f).contents() + shape_rendered(
                        *attr,
                        container_name@,
                        *custom,
                        fields@,
                    ));
                }
                Ok(())
            }
        },
        Some(ShapeAttr::Keyword { value }) => {
            if fields.len() != 0 {
                return Err(ShapeError::KeywordFields);
            }
            match value {
                Some(v) => f.write_str(v.as_str()),
                None => {
                    let v = to_kebab(container_name);
                    f.write_str(v.as_str());
                },
            }
            proof {
                assert(f.contents() =~= old(f).contents() + shape_rendered(
                    *attr,
                    container_name@,
                    *custom,
                    fields@,
                ));
            }
            Ok(())
        },
        Some(ShapeAttr::Function { name, separator }) => {
            match name {
                Some(n) => f.write_str(n.as_str()),
                None => {
                    let n = to_kebab(container_name);
                    f.write_str(n.as_str());
                },
            }
            f.write_char('(');
            proof {
                reveal_strlit(",");
                assert(","@ =~= seq![',']);
            }
            let sep: &str = match separator {
                Some(s) => s.as_str(),
                None => ",",
            };
            join_fields(fields, sep, f);
            f.write_char(')');
            proof {
                assert(f.contents() =~= old(f).contents() + shape_rendered(
                    *attr,
                    container_name@,
                    *custom,
                    fields@,
                ));
            }
            Ok(())
        },
        Some(ShapeAttr::Value { prefix, suffix, separator, write_fn }) => {
            if *write_fn && custom.is_none() {
                return Err(ShapeError::MissingCustom);
            }
            if !*write_fn && fields.len() == 0 {
                return Err(ShapeError::ValueFields);
            }
            match prefix {
                Some(p) => f.write_str(p.as_str()),
                None => (),
            }
            if *write_fn {
                match custom {
                    Some(c) => f.write_str(c.as_str()),
                    None => (),
                }
            } else {
                proof {
                    reveal_strlit(" ");
                    assert(" "@ =~= seq![' ']);
                }
                let sep: &str = match separator {
                    Some(s) => s.as_str(),
                    None => " ",
                };
                join_fields(fields, sep, f);
            }
            match suffix {
                Some(s) => f.write_str(s.as_str()),
                None => (),
            }
            proof {
                assert(f.contents() =~= old(f).contents() + shape_rendered(
                    *attr,
                    container_name@,
                    *custom,
                    fields@,
                ));
            }
            Ok(())
        },
        None => {
            if fields.len() != 1 {
                return Err(ShapeError::SingleField);
            }
            write_field(&fields[0], f);
            proof {
                assert(f.contents() =~= old(f).contents() + shape_rendered(
                    *attr,
                    container_name@,
                    *custom,
                    fields@,
                ));
            }
            Ok(())
        },
    }
}

} // verus!
