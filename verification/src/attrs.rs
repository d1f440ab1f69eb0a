//! Reading the declarative attribute vocabulary: raw attributes become at
//! most one shape attribute and at most one field configuration, with an
//! attribute conflict — a second shape, an unrecognized argument — found
//! at construction time.

use vstd::prelude::*;
use crate::css_value::{FieldAttr, ShapeAttr};
use crate::text::str_eq;

verus! {

/// One argument of an attribute: a bare flag, or a key with a string
/// value.
pub enum RawArg {
    Flag(String),
    KeyValue(String, String),
}

/// A raw attribute: its path and its arguments.
pub struct RawAttr {
    pub path: String,
    pub args: Vec<RawArg>,
}

/// An attribute conflict.
#[derive(Debug)]
pub enum AttrError {
    /// More than one shape attribute stands on one field or variant.
    MultipleShapes,
    /// An argument the matched attribute does not recognize.
    UnexpectedArgument(String),
    /// A shape attribute stands where none is allowed.
    AttrNotAllowed,
    /// A field cannot be an optional value and a collection at once.
    OptionAndIter,
}

/// An argument's name.
pub open spec fn arg_name(a: RawArg) -> Seq<char> {
    match a {
        RawArg::Flag(n) => n@,
        RawArg::KeyValue(n, _) => n@,
    }
}

/// The first argument with the given name, if any.
pub open spec fn spec_find_arg(args: Seq<RawArg>, name: Seq<char>) -> Option<RawArg>
    decreases args.len(),
{
    if args.len() == 0 {
        None
    } else if arg_name(args[0]) == name {
        Some(args[0])
    } else {
        spec_find_arg(args.drop_first(), name)
    }
}

/// Whether the name is given as a bare flag.
pub open spec fn spec_flag(args: Seq<RawArg>, name: Seq<char>) -> bool {
    match spec_find_arg(args, name) {
        Some(RawArg::Flag(_)) => true,
        _ => false,
    }
}

/// The string value given for the name, if one is.
pub open spec fn spec_kwarg(args: Seq<RawArg>, name: Seq<char>) -> Option<Seq<char>> {
    match spec_find_arg(args, name) {
        Some(RawArg::KeyValue(_, v)) => Some(v@),
        _ => None,
    }
}

/// Whether a name is among the recognized ones.
pub open spec fn name_allowed(allowed: Seq<Seq<char>>, name: Seq<char>) -> bool {
    exists|j: int| 0 <= j < allowed.len() && allowed[j] == name
}

/// The first argument whose name the attribute does not recognize.
pub open spec fn spec_first_unused(args: Seq<RawArg>, allowed: Seq<Seq<char>>) -> Option<
    Seq<char>,
>
    decreases args.len(),
{
    if args.len() == 0 {
        None
    } else if !name_allowed(allowed, arg_name(args[0])) {
        Some(arg_name(args[0]))
    } else {
        spec_first_unused(args.drop_first(), allowed)
    }
}

/// The view of an optional string.
pub open spec fn opt_view(o: Option<String>) -> Option<Seq<char>> {
    match o {
        Some(s) => Some(s@),
        None => None,
    }
}

/// Whether an attribute path names a shape.
pub open spec fn is_shape_path(p: Seq<char>) -> bool {
    p == "dimension"@ || p == "keyword"@ || p == "function"@ || p == "value"@
}

/// The argument names each shape recognizes.
pub open spec fn shape_allowed_names(p: Seq<char>) -> Seq<Seq<char>> {
    if p == "dimension"@ {
        seq!["zero"@, "unit"@]
    } else if p == "keyword"@ {
        seq!["value"@]
    } else if p == "function"@ {
        seq!["name"@, "separator"@]
    } else {
        seq!["prefix"@, "suffix"@, "separator"@, "write_fn"@]
    }
}

/// Whether a shape value is the one the raw attribute describes.
pub open spec fn shape_matches(shape: ShapeAttr, attr: RawAttr) -> bool {
    match shape {
        ShapeAttr::Dimension { zero, unit } => {
            &&& attr.path@ == "dimension"@
            &&& zero == spec_flag(attr.args@, "zero"@)
            &&& opt_view(unit) == spec_kwarg(attr.args@, "unit"@)
        },
        ShapeAttr::Keyword { value } => {
            &&& attr.path@ == "keyword"@
            &&& opt_view(value) == spec_kwarg(attr.args@, "value"@)
        },
        ShapeAttr::Function { name, separator } => {
            &&& attr.path@ == "function"@
            &&& opt_view(name) == spec_kwarg(attr.args@, "name"@)
            &&& opt_view(separator) == spec_kwarg(attr.args@, "separator"@)
        },
        ShapeAttr::Value { prefix, suffix, separator, write_fn } => {
            &&& attr.path@ == "value"@
            &&& opt_view(prefix) == spec_kwarg(attr.args@, "prefix"@)
            &&& opt_view(suffix) == spec_kwarg(attr.args@, "suffix"@)
            &&& opt_view(separator) == spec_kwarg(attr.args@, "separator"@)
            &&& write_fn == (spec_kwarg(attr.args@, "write_fn"@) is Some)
        },
    }
}

/// Whether a field configuration is the one the raw attribute describes.
pub open spec fn field_attr_matches(fa: FieldAttr, attr: RawAttr) -> bool {
    &&& attr.path@ == "field"@
    &&& opt_view(fa.prefix) == spec_kwarg(attr.args@, "prefix"@)
    &&& opt_view(fa.suffix) == spec_kwarg(attr.args@, "suffix"@)
    &&& fa.option == spec_flag(attr.args@, "option"@)
    &&& fa.iter == spec_flag(attr.args@, "iter"@)
    &&& fa.iter_option == spec_flag(attr.args@, "iter_option"@)
    &&& opt_view(fa.iter_separator) == spec_kwarg(attr.args@, "iter_separator"@)
}

fn find_arg<'a>(args: &'a Vec<RawArg>, name: &str) -> (r: Option<&'a RawArg>)
    ensures
        (match r {
            Some(a) => spec_find_arg(args@, name@) == Some(*a),
            None => spec_find_arg(args@, name@) is None,
        }),
{
    let ghost whole = args@;
    let mut j: usize = 0;
    proof {
        assert(whole.skip(0) =~= whole);
    }
    while j < args.len()
        invariant
            j <= args@.len(),
            whole == args@,
            spec_find_arg(whole, name@) == spec_find_arg(whole.skip(j as int), name@),
        decreases args@.len() - j,
    {
        proof {
            assert(whole.skip(j as int)[0] == whole[j as int]);
            assert(whole.skip(j as int).drop_first() =~= whole.skip(j + 1));
        }
        let matches_name = match &args[j] {
            RawArg::Flag(n) => str_eq(n.as_str(), name),
            RawArg::KeyValue(n, _) => str_eq(n.as_str(), name),
        };
        if matches_name {
            return Some(&args[j]);
        }
        j = j + 1;
    }
    proof {
        assert(whole.skip(whole.len() as int) =~= Seq::<RawArg>::empty());
    }
    None
}

/// Whether the name is given as a bare flag.
pub fn has_flag(args: &Vec<RawArg>, name: &str) -> (r: bool)
    ensures
        r == spec_flag(args@, name@),
{
    match find_arg(args, name) {
        Some(RawArg::Flag(_)) => true,
        _ => false,
    }
}

/// The string value given for the name, if one is.
pub fn get_kwarg_str(args: &Vec<RawArg>, name: &str) -> (r: Option<String>)
    ensures
        opt_view(r) == spec_kwarg(args@, name@),
{
    match find_arg(args, name) {
        Some(RawArg::KeyValue(_, v)) => Some(v.clone()),
        _ => None,
    }
}

fn first_unused(args: &Vec<RawArg>, allowed: &Vec<String>) -> (r: Option<String>)
    ensures
        (match r {
            Some(n) => spec_first_unused(args@, allowed@.map_values(|s: String| s@)) == Some(n@),
            None => spec_first_unused(args@, allowed@.map_values(|s: String| s@)) is None,
        }),
{
    let ghost whole = args@;
    let ghost names = allowed@.map_values(|s: String| s@);
    let mut j: usize = 0;
    proof {
        assert(whole.skip(0) =~= whole);
    }
    while j < args.len()
        invariant
            j <= args@.len(),
            whole == args@,
            names == allowed@.map_values(|s: String| s@),
            spec_first_unused(whole, names) == spec_first_unused(whole.skip(j as int), names),
        decreases args@.len() - j,
    {
        proof {
            assert(whole.skip(j as int)[0] == whole[j as int]);
            assert(whole.skip(j as int).drop_first() =~= whole.skip(j + 1));
        }
        let name: &String = match &args[j] {
            RawArg::Flag(n) => n,
            RawArg::KeyValue(n, _) => n,
        };
        let mut ok = false;
        let mut k: usize = 0;
        while k < allowed.len()
            invariant
                k <= allowed@.len(),
                names == allowed@.map_values(|s: String| s@),
                ok == (exists|x: int| 0 <= x < k && names[x] == name@),
            decreases allowed@.len() - k,
        {
            if allowed[k] == *name {
                ok = true;
                proof {
                    assert(names[k as int] == name@);
                }
            }
            k = k + 1;
        }
        if !ok {
            return Some(name.clone());
        }
        j = j + 1;
    }
    proof {
        assert(whole.skip(whole.len() as int) =~= Seq::<RawArg>::empty());
    }
    None
}

fn shape_allowed(path: &str) -> (r: Vec<String>)
    ensures
        r@.map_values(|s: String| s@) == shape_allowed_names(path@),
{
    let mut out: Vec<String> = Vec::new();
    if str_eq(path, "dimension") {
        out.push("zero".to_owned());
        out.push("unit".to_owned());
        proof {
            assert(out@.map_values(|s: String| s@) =~= seq!["zero"@, "unit"@]);
        }
    } else if str_eq(path, "keyword") {
        out.push("value".to_owned());
        proof {
            assert(out@.map_values(|s: String| s@) =~= seq!["value"@]);
        }
    } else if str_eq(path, "function") {
        out.push("name".to_owned());
        out.push("separator".to_owned());
        proof {
            assert(out@.map_values(|s: String| s@) =~= seq!["name"@, "separator"@]);
        }
    } else {
        out.push("prefix".to_owned());
        out.push("suffix".to_owned());
        out.push("separator".to_owned());
        out.push("write_fn".to_owned());
        proof {
            assert(out@.map_values(|s: String| s@) =~= seq![
                "prefix"@,
                "suffix"@,
                "separator"@,
                "write_fn"@,
            ]);
        }
    }
    out
}

fn is_shape_attr(attr: &RawAttr) -> (r: bool)
    ensures
        r == is_shape_path(attr.path@),
{
    str_eq(attr.path.as_str(), "dimension") || str_eq(attr.path.as_str(), "keyword") || str_eq(
        attr.path.as_str(),
        "function",
    ) || str_eq(attr.path.as_str(), "value")
}

/// Reads one shape attribute, rejecting an argument it does not
/// recognize.
pub fn shape_from_attr(attr: &RawAttr) -> (r: Result<ShapeAttr, AttrError>)
    requires
        is_shape_path(attr.path@),
    ensures
        (match r {
            Ok(shape) => spec_first_unused(attr.args@, shape_allowed_names(attr.path@)) is None
                && shape_matches(shape, *attr),
            Err(e) => e matches AttrError::UnexpectedArgument(n) && Some(n@) == spec_first_unused(
                attr.args@,
                shape_allowed_names(attr.path@),
            ),
        }),
{
    let allowed = shape_allowed(attr.path.as_str());
    match first_unused(&attr.args, &allowed) {
        Some(n) => {
            return Err(AttrError::UnexpectedArgument(n));
        },
        None => (),
    }
    if str_eq(attr.path.as_str(), "dimension") {
        Ok(
            ShapeAttr::Dimension {
                zero: has_flag(&attr.args, "zero"),
                unit: get_kwarg_str(&attr.args, "unit"),
            },
        )
    } else if str_eq(attr.path.as_str(), "keyword") {
        Ok(ShapeAttr::Keyword { value: get_kwarg_str(&attr.args, "value") })
    } else if str_eq(attr.path.as_str(), "function") {
        Ok(
            ShapeAttr::Function {
                name: get_kwarg_str(&attr.args, "name"),
                separator: get_kwarg_str(&attr.args, "separator"),
            },
        )
    } else {
        let write_fn = match get_kwarg_str(&attr.args, "write_fn") {
            Some(_) => true,
            None => false,
        };
        Ok(
            ShapeAttr::Value {
                prefix: get_kwarg_str(&attr.args, "prefix"),
                suffix: get_kwarg_str(&attr.args, "suffix"),
                separator: get_kwarg_str(&attr.args, "separator"),
                write_fn,
            },
        )
    }
}

/// An index shifted by an offset.
pub open spec fn shift_opt(o: Option<int>, j: int) -> Option<int> {
    match o {
        Some(x) => Some(x + j),
        None => None,
    }
}

/// The position of the first shape attribute, if any.
pub open spec fn spec_first_shape(attrs: Seq<RawAttr>) -> Option<int>
    decreases attrs.len(),
{
    if attrs.len() == 0 {
        None
    } else if is_shape_path(attrs[0].path@) {
        Some(0)
    } else {
        match spec_first_shape(attrs.drop_first()) {
            Some(j) => Some(1 + j),
            None => None,
        }
    }
}

/// Whether a second shape attribute follows the first.
pub open spec fn spec_has_second_shape(attrs: Seq<RawAttr>) -> bool {
    match spec_first_shape(attrs) {
        Some(j) => spec_first_shape(attrs.skip(j + 1)) is Some,
        None => false,
    }
}

/// Reads the at most one shape attribute of a field or variant: the
/// first one found is used; a second one is a conflict, never a silent
/// override.
pub fn parse_single_shape(attrs: &Vec<RawAttr>) -> (r: Result<Option<ShapeAttr>, AttrError>)
    ensures
        (match r {
            Ok(None) => spec_first_shape(attrs@) is None,
            Ok(Some(shape)) => {
                &&& spec_first_shape(attrs@) matches Some(j) && shape_matches(shape, attrs@[j])
                    && spec_first_unused(
                    attrs@[j].args@,
                    shape_allowed_names(attrs@[j].path@),
                ) is None
                &&& !spec_has_second_shape(attrs@)
            },
            Err(AttrError::MultipleShapes) => spec_has_second_shape(attrs@),
            Err(AttrError::UnexpectedArgument(n)) => spec_first_shape(attrs@) matches Some(j)
                && Some(n@) == spec_first_unused(
                attrs@[j].args@,
                shape_allowed_names(attrs@[j].path@),
            ),
            Err(_) => false,
        }),
{
    let ghost whole = attrs@;
    let mut j: usize = 0;
    proof {
        assert(whole.skip(0) =~= whole);
    }
    let mut first: Option<ShapeAttr> = None;
    let ghost mut first_at: int = 0;
    while j < attrs.len()
        invariant
            j <= attrs@.len(),
            whole == attrs@,
            (match first {
                None => spec_first_shape(whole) == shift_opt(
                    spec_first_shape(whole.skip(j as int)),
                    j as int,
                ) && (forall|k: int| 0 <= k < j ==> !is_shape_path(whole[k].path@)),
                Some(shape) => {
                    &&& spec_first_shape(whole) == Some(first_at)
                    &&& 0 <= first_at < j
                    &&& shape_matches(shape, whole[first_at])
                    &&& spec_first_unused(
                        whole[first_at].args@,
                        shape_allowed_names(whole[first_at].path@),
                    ) is None
                    &&& forall|k: int| first_at < k < j ==> !is_shape_path(whole[k].path@)
                },
            }),
        decreases attrs@.len() - j,
    {
        proof {
            assert(whole.skip(j as int)[0] == whole[j as int]);
            assert(whole.skip(j as int).drop_first() =~= whole.skip(j + 1));
        }
        if is_shape_attr(&attrs[j]) {
            match first {
                None => {
                    proof {
                        assert(spec_first_shape(whole.skip(j as int)) == Some(0int));
                        assert(spec_first_shape(whole) == Some(j as int));
                    }
                    match shape_from_attr(&attrs[j]) {
                        Ok(shape) => {
                            first = Some(shape);
                            proof {
                                first_at = j as int;
                            }
                        },
                        Err(e) => {
                            return Err(e);
                        },
                    }
                },
                Some(_) => {
                    proof {
                        assert(spec_first_shape(whole.skip(first_at + 1)) is Some) by {
                            lemma_first_shape_found(whole.skip(first_at + 1), j - first_at - 1);
                        }
                    }
                    return Err(AttrError::MultipleShapes);
                },
            }
        }
        j = j + 1;
    }
    proof {
        assert(whole.skip(whole.len() as int) =~= Seq::<RawAttr>::empty());
        match first {
            Some(_) => {
                assert(!spec_has_second_shape(whole)) by {
                    if spec_first_shape(whole.skip(first_at + 1)) is Some {
                        lemma_first_shape_is_shape(whole.skip(first_at + 1));
                    }
                }
            },
            None => {},
        }
    }
    Ok(first)
}

/// A prefix of non-shape attributes ending at a shape attribute puts the
/// first shape at that position.
proof fn lemma_first_shape_found(attrs: Seq<RawAttr>, at: int)
    requires
        0 <= at < attrs.len(),
        is_shape_path(attrs[at].path@),
    ensures
        spec_first_shape(attrs) is Some,
    decreases attrs.len(),
{
    if attrs.len() > 0 && !is_shape_path(attrs[0].path@) {
        assert(attrs.drop_first()[at - 1] == attrs[at]);
        lemma_first_shape_found(attrs.drop_first(), at - 1);
    }
}

/// Where the first shape is reported, a shape attribute stands.
proof fn lemma_first_shape_is_shape(attrs: Seq<RawAttr>)
    requires
        spec_first_shape(attrs) is Some,
    ensures
        ({
            let j = spec_first_shape(attrs)->Some_0;
            0 <= j < attrs.len() && is_shape_path(attrs[j].path@)
        }),
    decreases attrs.len(),
{
    if attrs.len() > 0 && !is_shape_path(attrs[0].path@) {
        lemma_first_shape_is_shape(attrs.drop_first());
    }
}

/// Requires that no shape attribute stands here, as on an enum itself.
pub fn expect_no_shape(attrs: &Vec<RawAttr>) -> (r: Result<(), AttrError>)
    ensures
        (match r {
            Ok(()) => spec_first_shape(attrs@) is None,
            Err(e) => e matches AttrError::AttrNotAllowed && spec_first_shape(attrs@) is Some,
        }),
{
    let ghost whole = attrs@;
    let mut j: usize = 0;
    proof {
        assert(whole.skip(0) =~= whole);
    }
    while j < attrs.len()
        invariant
            j <= attrs@.len(),
            whole == attrs@,
            spec_first_shape(whole) == shift_opt(spec_first_shape(whole.skip(j as int)), j as int),
        decreases attrs@.len() - j,
    {
        proof {
            assert(whole.skip(j as int)[0] == whole[j as int]);
            assert(whole.skip(j as int).drop_first() =~= whole.skip(j + 1));
        }
        if is_shape_attr(&attrs[j]) {
            return Err(AttrError::AttrNotAllowed);
        }
        j = j + 1;
    }
    proof {
        assert(whole.skip(whole.len() as int) =~= Seq::<RawAttr>::empty());
    }
    Ok(())
}

/// Reads one `field` attribute; forcing both optional and collection
/// handling at once is a conflict.
pub fn field_attr_from_attr(attr: &RawAttr) -> (r: Result<FieldAttr, AttrError>)
    requires
        attr.path@ == "field"@,
    ensures
        (match r {
            Ok(fa) => {
                &&& field_attr_matches(fa, *attr)
                &&& !(spec_flag(attr.args@, "option"@) && spec_flag(attr.args@, "iter"@))
                &&& spec_first_unused(attr.args@, field_allowed_names()) is None
            },
            Err(e) => (e matches AttrError::OptionAndIter && spec_flag(attr.args@, "option"@)
                && spec_flag(attr.args@, "iter"@)) || (e matches AttrError::UnexpectedArgument(n)
                && Some(n@) == spec_first_unused(attr.args@, field_allowed_names())),
        }),
{
    let mut allowed: Vec<String> = Vec::new();
    allowed.push("prefix".to_owned());
    allowed.push("suffix".to_owned());
    allowed.push("write_fn".to_owned());
    allowed.push("option".to_owned());
    allowed.push("iter".to_owned());
    allowed.push("iter_option".to_owned());
    allowed.push("iter_separator".to_owned());
    proof {
        assert(allowed@.map_values(|s: String| s@) =~= field_allowed_names());
    }
    match first_unused(&attr.args, &allowed) {
        Some(n) => {
            return Err(AttrError::UnexpectedArgument(n));
        },
        None => (),
    }
    let option = has_flag(&attr.args, "option");
    let iter = has_flag(&attr.args, "iter");
    if option && iter {
        return Err(AttrError::OptionAndIter);
    }
    Ok(
        FieldAttr {
            prefix: get_kwarg_str(&attr.args, "prefix"),
            suffix: get_kwarg_str(&attr.args, "suffix"),
            option,
            iter,
            iter_option: has_flag(&attr.args, "iter_option"),
            iter_separator: get_kwarg_str(&attr.args, "iter_separator"),
        },
    )
}

/// The argument names the `field` attribute recognizes.
pub open spec fn field_allowed_names() -> Seq<Seq<char>> {
    seq![
        "prefix"@,
        "suffix"@,
        "write_fn"@,
        "option"@,
        "iter"@,
        "iter_option"@,
        "iter_separator"@,
    ]
}

} // verus!
