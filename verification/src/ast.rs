//! The grammar AST: primitives, multipliers and combinators, as the
//! grammar parser produces them and the schema resolvers consume them.

use vstd::prelude::*;
use crate::text::{join_with, lemma_join_with_push};
use crate::css_value::str_views;

verus! {

/// A CSS identifier: one or more hyphen-joined identifier segments.
pub struct CssIdent {
    pub segments: Vec<String>,
}

impl CssIdent {
    /// The identifier's text: its segments joined by hyphens.
    pub open spec fn text(&self) -> Seq<char> {
        join_with(str_views(self.segments@), seq!['-'])
    }

    /// A well-formed identifier has at least one segment.
    pub open spec fn wf(&self) -> bool {
        self.segments@.len() > 0
    }

    /// Builds an identifier from its segments.
    pub fn new(segments: Vec<String>) -> (r: CssIdent)
        ensures
            r.segments@ == segments@,
    {
        CssIdent { segments }
    }

    /// The hyphen-joined text of the identifier.
    pub fn value(&self) -> (r: String)
        ensures
            r@ == self.text(),
    {
        let mut out = String::new();
        let mut i: usize = 0;
        while i < self.segments.len()
            invariant
                i <= self.segments@.len(),
                out@ == join_with(str_views(self.segments@.take(i as int)), seq!['-']),
            decreases self.segments@.len() - i,
        {
            if i > 0 {
                out.push('-');
            }
            out.append(self.segments[i].as_str());
            proof {
                let prev = str_views(self.segments@.take(i as int));
                assert(str_views(self.segments@.take(i + 1)) =~= prev.push(
                    self.segments@[i as int]@,
                ));
                lemma_join_with_push(prev, seq!['-'], self.segments@[i as int]@);
                assert(out@ =~= join_with(str_views(self.segments@.take(i + 1)), seq!['-']));
            }
            i = i + 1;
        }
        proof {
            assert(self.segments@.take(self.segments@.len() as int) =~= self.segments@);
        }
        out
    }
}

/// A closed numeric range `[min,max]` attached to a reference; an absent
/// bound stands for infinity on that side.
pub struct ClosedRange {
    pub min: Option<u64>,
    pub max: Option<u64>,
}

impl ClosedRange {
    /// Whether a value lies within the range.
    pub open spec fn spec_contains(&self, v: u64) -> bool {
        &&& (match self.min {
            Some(m) => m <= v,
            None => true,
        })
        &&& (match self.max {
            Some(m) => v <= m,
            None => true,
        })
    }

    /// Checks a parsed value against the range; a failure is reported
    /// against the value, the type stays unconstrained.
    pub fn check(&self, v: u64) -> (r: bool)
        ensures
            r == self.spec_contains(v),
    {
        let low_ok = match self.min {
            Some(m) => m <= v,
            None => true,
        };
        let high_ok = match self.max {
            Some(m) => v <= m,
            None => true,
        };
        low_ok && high_ok
    }

    /// The range rendered for diagnostics: `[lo,hi]`, a missing bound
    /// printed as `-inf` or `+inf`.
    pub open spec fn spec_range_text(&self) -> Seq<char> {
        seq!['['] + (match self.min {
            Some(m) => crate::text::dec_of(m as nat),
            None => "-inf"@,
        }) + seq![','] + (match self.max {
            Some(m) => crate::text::dec_of(m as nat),
            None => "+inf"@,
        }) + seq![']']
    }

    /// Renders the range for diagnostics.
    pub fn range_text(&self) -> (r: String)
        ensures
            r@ == self.spec_range_text(),
    {
        let mut out = String::new();
        out.push('[');
        match self.min {
            Some(m) => {
                let d = crate::text::u64_to_dec(m);
                out.append(d.as_str());
            },
            None => out.append("-inf"),
        }
        out.push(',');
        match self.max {
            Some(m) => {
                let d = crate::text::u64_to_dec(m);
                out.append(d.as_str());
            },
            None => out.append("+inf"),
        }
        out.push(']');
        proof {
            assert(out@ =~= self.spec_range_text());
        }
        out
    }

    /// The diagnostic for a value outside the range.
    pub fn check_message(&self) -> (r: String)
        ensures
            r@ == "value must be in closed range "@ + self.spec_range_text(),
    {
        let mut out = String::new();
        out.append("value must be in closed range ");
        let t = self.range_text();
        out.append(t.as_str());
        out
    }
}

/// A bounded or unbounded repetition range `{m}`, `{m,}` or `{m,n}`.
pub struct RangeMultiplier {
    pub min: u64,
    /// Whether a comma followed the lower bound; without one the range is
    /// exact.
    pub comma: bool,
    pub max: Option<u64>,
}

impl RangeMultiplier {
    /// An exact range `{m}` has no comma.
    pub open spec fn spec_is_exact(&self) -> bool {
        !self.comma
    }

    pub fn is_exact(&self) -> (r: bool)
        ensures
            r == self.spec_is_exact(),
    {
        !self.comma
    }

    /// The range's bounds: `{m}` means exactly `m`, `{m,}` at least `m`,
    /// `{m,n}` between the two.
    pub open spec fn spec_bounds(&self) -> (u64, Option<u64>) {
        if !self.comma {
            (self.min, Some(self.min))
        } else {
            (self.min, self.max)
        }
    }

    pub fn bounds(&self) -> (r: (u64, Option<u64>))
        ensures
            r == self.spec_bounds(),
    {
        if !self.comma {
            (self.min, Some(self.min))
        } else {
            (self.min, self.max)
        }
    }
}

/// The kind of a multiplier, used by the parser's lookahead.
pub enum MultiplierType {
    ZeroOrMore,
    OneOrMore,
    Optional,
    Range,
    OneOrMoreComma,
    Required,
}

/// A multiplier attached directly after a primitive.
pub enum Multiplier {
    /// `*`
    ZeroOrMore,
    /// `+`
    OneOrMore,
    /// `?`
    Optional,
    /// `{m}`, `{m,}` or `{m,n}`
    Range(RangeMultiplier),
    /// `#`: one or more, comma-separated
    OneOrMoreComma,
    /// `!`: explicitly required; changes nothing
    Required,
}

/// The kind of a primitive, used by the parser's lookahead.
pub enum PrimitiveValueType {
    Keyword,
    Literal,
    Reference,
    PropertyReference,
    Group,
}

/// A named rule invocation `<name>`, optionally range-constrained.
pub struct Reference {
    pub ident: CssIdent,
    pub range: Option<ClosedRange>,
}

/// A primitive grammar construct.
pub enum PrimitiveValue {
    /// A bare identifier.
    Keyword(CssIdent),
    /// A quoted token.
    Literal(String),
    /// `<name>` or `<name[lo,hi]>`
    Reference(Reference),
    /// `<"property-name">`
    PropertyReference(String),
    /// A bracketed sub-grammar.
    Group(Box<CombinedValue>),
}

/// A primitive together with its optional multiplier and an optional
/// trailing comma.
pub struct SingleValue {
    pub value: PrimitiveValue,
    pub multiplier: Option<Multiplier>,
    pub comma: bool,
}

/// A juxtaposed sequence: ordered, all required.
pub struct AllOrdered {
    pub components: Vec<SingleValue>,
}

/// `&&`-joined components: all required, any order.
pub struct AllUnordered {
    pub components: Vec<AllOrdered>,
}

/// `||`-joined components: at least one required, any order.
pub struct OneOrMoreUnordered {
    pub components: Vec<AllUnordered>,
}

/// `|`-joined alternatives: exactly one of several.
pub struct Enumeration {
    pub components: Vec<OneOrMoreUnordered>,
}

/// A combinator expression. A combinator node with exactly one child is
/// collapsed to that child when it is built, so a well-formed tree never
/// holds a one-child combinator.
pub enum CombinedValue {
    Single(SingleValue),
    AllOrdered(AllOrdered),
    AllUnordered(AllUnordered),
    OneOrMoreUnordered(OneOrMoreUnordered),
    Enumeration(Enumeration),
}

impl CombinedValue {
    /// How many components the node has.
    pub fn len(&self) -> (r: usize)
        ensures
            r == self.spec_len(),
    {
        match self {
            CombinedValue::Single(_) => 1,
            CombinedValue::AllOrdered(v) => v.components.len(),
            CombinedValue::AllUnordered(v) => v.components.len(),
            CombinedValue::OneOrMoreUnordered(v) => v.components.len(),
            CombinedValue::Enumeration(v) => v.components.len(),
        }
    }

    pub open spec fn spec_len(&self) -> nat {
        match self {
            CombinedValue::Single(_) => 1,
            CombinedValue::AllOrdered(v) => v.components@.len(),
            CombinedValue::AllUnordered(v) => v.components@.len(),
            CombinedValue::OneOrMoreUnordered(v) => v.components@.len(),
            CombinedValue::Enumeration(v) => v.components@.len(),
        }
    }

    /// Wraps a sequence node, collapsing a single component to itself.
    pub fn from_all_ordered(v: AllOrdered) -> (r: CombinedValue)
        ensures
            v.components@.len() == 1 ==> r == (CombinedValue::Single(v.components@[0])),
            v.components@.len() != 1 ==> r == (CombinedValue::AllOrdered(v)),
    {
        if v.components.len() == 1 {
            let mut v = v;
            let first = v.components.remove(0);
            CombinedValue::Single(first)
        } else {
            CombinedValue::AllOrdered(v)
        }
    }

    /// Wraps an all-unordered node, collapsing a single component.
    pub fn from_all_unordered(v: AllUnordered) -> (r: CombinedValue)
        ensures
            v.components@.len() == 1 ==> r == Self::spec_from_all_ordered(v.components@[0]),
            v.components@.len() != 1 ==> r == (CombinedValue::AllUnordered(v)),
    {
        if v.components.len() == 1 {
            let mut v = v;
            let first = v.components.remove(0);
            Self::from_all_ordered(first)
        } else {
            CombinedValue::AllUnordered(v)
        }
    }

    /// Wraps a one-or-more-unordered node, collapsing a single component.
    pub fn from_one_or_more_unordered(v: OneOrMoreUnordered) -> (r: CombinedValue)
        ensures
            v.components@.len() == 1 ==> r == Self::spec_from_all_unordered(v.components@[0]),
            v.components@.len() != 1 ==> r == (CombinedValue::OneOrMoreUnordered(v)),
    {
        if v.components.len() == 1 {
            let mut v = v;
            let first = v.components.remove(0);
            Self::from_all_unordered(first)
        } else {
            CombinedValue::OneOrMoreUnordered(v)
        }
    }

    /// Wraps an enumeration node, collapsing a single component.
    pub fn from_enumeration(v: Enumeration) -> (r: CombinedValue)
        ensures
            v.components@.len() == 1 ==> r == Self::spec_from_one_or_more_unordered(
                v.components@[0],
            ),
            v.components@.len() != 1 ==> r == (CombinedValue::Enumeration(v)),
    {
        if v.components.len() == 1 {
            let mut v = v;
            let first = v.components.remove(0);
            Self::from_one_or_more_unordered(first)
        } else {
            CombinedValue::Enumeration(v)
        }
    }

    /// What wrapping a sequence node produces.
    pub open spec fn spec_from_all_ordered(v: AllOrdered) -> CombinedValue {
        if v.components@.len() == 1 {
            CombinedValue::Single(v.components@[0])
        } else {
            CombinedValue::AllOrdered(v)
        }
    }

    /// What wrapping an all-unordered node produces.
    pub open spec fn spec_from_all_unordered(v: AllUnordered) -> CombinedValue {
        if v.components@.len() == 1 {
            Self::spec_from_all_ordered(v.components@[0])
        } else {
            CombinedValue::AllUnordered(v)
        }
    }

    /// What wrapping a one-or-more-unordered node produces.
    pub open spec fn spec_from_one_or_more_unordered(v: OneOrMoreUnordered) -> CombinedValue {
        if v.components@.len() == 1 {
            Self::spec_from_all_unordered(v.components@[0])
        } else {
            CombinedValue::OneOrMoreUnordered(v)
        }
    }

    /// What wrapping an enumeration node produces.
    pub open spec fn spec_from_enumeration(v: Enumeration) -> CombinedValue {
        if v.components@.len() == 1 {
            Self::spec_from_one_or_more_unordered(v.components@[0])
        } else {
            CombinedValue::Enumeration(v)
        }
    }
}

/// One rule line of a definition file: a name, `=`, a combinator
/// expression and `;`.
pub struct GenericDefinitionLine {
    pub value: CombinedValue,
}

/// A rule line naming a value type: `<name> = ...;`.
pub struct ValueDefinition {
    pub name: Reference,
    pub line: GenericDefinitionLine,
}

/// A rule line naming an external property: `<"name"> = ...;`.
pub struct PropertyDefinition {
    pub name: String,
    pub line: GenericDefinitionLine,
}

/// The definition a grammar file starts with.
pub enum Definition {
    Property(PropertyDefinition),
    Value(ValueDefinition),
}

/// A whole grammar file: one definition, then any number of value rules.
pub struct Vds {
    pub definition: Definition,
    pub values: Vec<ValueDefinition>,
}

/// The model of an identifier: its segment texts.
pub open spec fn ident_segs(ci: CssIdent) -> Seq<Seq<char>> {
    str_views(ci.segments@)
}

/// The model of a reference.
#[verifier::ext_equal]
pub struct ReferenceS {
    pub ident: Seq<Seq<char>>,
    pub range: Option<ClosedRange>,
}

/// The model of a primitive.
#[verifier::ext_equal]
pub enum PrimitiveValueS {
    Keyword(Seq<Seq<char>>),
    Literal(Seq<char>),
    Reference(ReferenceS),
    PropertyReference(Seq<char>),
    Group(Box<CombinedValueS>),
}

/// The model of a primitive with its multiplier.
#[verifier::ext_equal]
pub struct SingleValueS {
    pub value: PrimitiveValueS,
    pub multiplier: Option<Multiplier>,
    pub comma: bool,
}

#[verifier::ext_equal]
pub struct AllOrderedS {
    pub components: Seq<SingleValueS>,
}

#[verifier::ext_equal]
pub struct AllUnorderedS {
    pub components: Seq<AllOrderedS>,
}

#[verifier::ext_equal]
pub struct OneOrMoreUnorderedS {
    pub components: Seq<AllUnorderedS>,
}

#[verifier::ext_equal]
pub struct EnumerationS {
    pub components: Seq<OneOrMoreUnorderedS>,
}

/// The model of a combinator expression.
#[verifier::ext_equal]
pub enum CombinedValueS {
    Single(SingleValueS),
    AllOrdered(AllOrderedS),
    AllUnordered(AllUnorderedS),
    OneOrMoreUnordered(OneOrMoreUnorderedS),
    Enumeration(EnumerationS),
}

#[verifier::ext_equal]
pub struct GenericDefinitionLineS {
    pub value: CombinedValueS,
}

#[verifier::ext_equal]
pub struct ValueDefinitionS {
    pub name: ReferenceS,
    pub line: GenericDefinitionLineS,
}

#[verifier::ext_equal]
pub struct PropertyDefinitionS {
    pub name: Seq<char>,
    pub line: GenericDefinitionLineS,
}

#[verifier::ext_equal]
pub enum DefinitionS {
    Property(PropertyDefinitionS),
    Value(ValueDefinitionS),
}

#[verifier::ext_equal]
pub struct VdsS {
    pub definition: DefinitionS,
    pub values: Seq<ValueDefinitionS>,
}

/// The model of a reference.
pub open spec fn reference_view(r: Reference) -> ReferenceS {
    ReferenceS { ident: ident_segs(r.ident), range: r.range }
}

/// The model of a primitive.
pub open spec fn prim_view(p: PrimitiveValue) -> PrimitiveValueS
    decreases p,
{
    match p {
        PrimitiveValue::Keyword(ci) => PrimitiveValueS::Keyword(ident_segs(ci)),
        PrimitiveValue::Literal(s) => PrimitiveValueS::Literal(s@),
        PrimitiveValue::Reference(r) => PrimitiveValueS::Reference(reference_view(r)),
        PrimitiveValue::PropertyReference(s) => PrimitiveValueS::PropertyReference(s@),
        PrimitiveValue::Group(b) => PrimitiveValueS::Group(Box::new(cv_view(*b))),
    }
}

/// The model of a primitive with its multiplier.
pub open spec fn single_view(sv: SingleValue) -> SingleValueS
    decreases sv,
{
    SingleValueS { value: prim_view(sv.value), multiplier: sv.multiplier, comma: sv.comma }
}

pub open spec fn singles_view(cs: Seq<SingleValue>) -> Seq<SingleValueS>
    decreases cs,
{
    if cs.len() == 0 {
        Seq::empty()
    } else {
        seq![single_view(cs[0])] + singles_view(cs.drop_first())
    }
}

pub open spec fn ao_view(ao: AllOrdered) -> AllOrderedS
    decreases ao,
{
    AllOrderedS { components: singles_view(ao.components@) }
}

pub open spec fn aos_view(cs: Seq<AllOrdered>) -> Seq<AllOrderedS>
    decreases cs,
{
    if cs.len() == 0 {
        Seq::empty()
    } else {
        seq![ao_view(cs[0])] + aos_view(cs.drop_first())
    }
}

pub open spec fn au_view(au: AllUnordered) -> AllUnorderedS
    decreases au,
{
    AllUnorderedS { components: aos_view(au.components@) }
}

pub open spec fn aus_view(cs: Seq<AllUnordered>) -> Seq<AllUnorderedS>
    decreases cs,
{
    if cs.len() == 0 {
        Seq::empty()
    } else {
        seq![au_view(cs[0])] + aus_view(cs.drop_first())
    }
}

pub open spec fn om_view(om: OneOrMoreUnordered) -> OneOrMoreUnorderedS
    decreases om,
{
    OneOrMoreUnorderedS { components: aus_view(om.components@) }
}

pub open spec fn oms_view(cs: Seq<OneOrMoreUnordered>) -> Seq<OneOrMoreUnorderedS>
    decreases cs,
{
    if cs.len() == 0 {
        Seq::empty()
    } else {
        seq![om_view(cs[0])] + oms_view(cs.drop_first())
    }
}

pub open spec fn enum_view(e: Enumeration) -> EnumerationS
    decreases e,
{
    EnumerationS { components: oms_view(e.components@) }
}

/// The model of a combinator expression.
pub open spec fn cv_view(cv: CombinedValue) -> CombinedValueS
    decreases cv,
{
    match cv {
        CombinedValue::Single(sv) => CombinedValueS::Single(single_view(sv)),
        CombinedValue::AllOrdered(v) => CombinedValueS::AllOrdered(ao_view(v)),
        CombinedValue::AllUnordered(v) => CombinedValueS::AllUnordered(au_view(v)),
        CombinedValue::OneOrMoreUnordered(v) => CombinedValueS::OneOrMoreUnordered(om_view(v)),
        CombinedValue::Enumeration(v) => CombinedValueS::Enumeration(enum_view(v)),
    }
}

pub open spec fn line_view(l: GenericDefinitionLine) -> GenericDefinitionLineS {
    GenericDefinitionLineS { value: cv_view(l.value) }
}

pub open spec fn vdef_view(v: ValueDefinition) -> ValueDefinitionS {
    ValueDefinitionS { name: reference_view(v.name), line: line_view(v.line) }
}

pub open spec fn vdefs_view(vs: Seq<ValueDefinition>) -> Seq<ValueDefinitionS>
    decreases vs,
{
    if vs.len() == 0 {
        Seq::empty()
    } else {
        seq![vdef_view(vs[0])] + vdefs_view(vs.drop_first())
    }
}

pub open spec fn pdef_view(p: PropertyDefinition) -> PropertyDefinitionS {
    PropertyDefinitionS { name: p.name@, line: line_view(p.line) }
}

pub open spec fn def_view(d: Definition) -> DefinitionS {
    match d {
        Definition::Property(p) => DefinitionS::Property(pdef_view(p)),
        Definition::Value(v) => DefinitionS::Value(vdef_view(v)),
    }
}

/// The model of a whole grammar file.
pub open spec fn vds_view(v: Vds) -> VdsS {
    VdsS { definition: def_view(v.definition), values: vdefs_view(v.values@) }
}

pub proof fn lemma_singles_view_len(cs: Seq<SingleValue>)
    ensures
        singles_view(cs).len() == cs.len(),
    decreases cs,
{
    if cs.len() > 0 {
        lemma_singles_view_len(cs.drop_first());
    }
}

pub proof fn lemma_aos_view_len(cs: Seq<AllOrdered>)
    ensures
        aos_view(cs).len() == cs.len(),
    decreases cs,
{
    if cs.len() > 0 {
        lemma_aos_view_len(cs.drop_first());
    }
}

pub proof fn lemma_aus_view_len(cs: Seq<AllUnordered>)
    ensures
        aus_view(cs).len() == cs.len(),
    decreases cs,
{
    if cs.len() > 0 {
        lemma_aus_view_len(cs.drop_first());
    }
}

pub proof fn lemma_oms_view_len(cs: Seq<OneOrMoreUnordered>)
    ensures
        oms_view(cs).len() == cs.len(),
    decreases cs,
{
    if cs.len() > 0 {
        lemma_oms_view_len(cs.drop_first());
    }
}

pub proof fn lemma_vdefs_view_len(vs: Seq<ValueDefinition>)
    ensures
        vdefs_view(vs).len() == vs.len(),
    decreases vs,
{
    if vs.len() > 0 {
        lemma_vdefs_view_len(vs.drop_first());
    }
}

/// Collapsing a sequence node, on models.
pub open spec fn s_from_all_ordered(v: AllOrderedS) -> CombinedValueS {
    if v.components.len() == 1 {
        CombinedValueS::Single(v.components[0])
    } else {
        CombinedValueS::AllOrdered(v)
    }
}

/// Collapsing an all-unordered node, on models.
pub open spec fn s_from_all_unordered(v: AllUnorderedS) -> CombinedValueS {
    if v.components.len() == 1 {
        s_from_all_ordered(v.components[0])
    } else {
        CombinedValueS::AllUnordered(v)
    }
}

/// Collapsing a one-or-more-unordered node, on models.
pub open spec fn s_from_one_or_more_unordered(v: OneOrMoreUnorderedS) -> CombinedValueS {
    if v.components.len() == 1 {
        s_from_all_unordered(v.components[0])
    } else {
        CombinedValueS::OneOrMoreUnordered(v)
    }
}

/// Collapsing an enumeration, on models.
pub open spec fn s_from_enumeration(v: EnumerationS) -> CombinedValueS {
    if v.components.len() == 1 {
        s_from_one_or_more_unordered(v.components[0])
    } else {
        CombinedValueS::Enumeration(v)
    }
}

/// Collapse invariant at construction: wrapping a one-child enumeration
/// is exactly wrapping the lone child, recursively down every level, so
/// no one-child combinator wrapper is ever produced.
pub proof fn lemma_s_from_enumeration_single(v: EnumerationS)
    requires
        v.components.len() == 1,
    ensures
        s_from_enumeration(v) == s_from_one_or_more_unordered(v.components[0]),
{
}

pub proof fn lemma_s_from_one_or_more_single(v: OneOrMoreUnorderedS)
    requires
        v.components.len() == 1,
    ensures
        s_from_one_or_more_unordered(v) == s_from_all_unordered(v.components[0]),
{
}

pub proof fn lemma_s_from_all_unordered_single(v: AllUnorderedS)
    requires
        v.components.len() == 1,
    ensures
        s_from_all_unordered(v) == s_from_all_ordered(v.components[0]),
{
}

pub proof fn lemma_s_from_all_ordered_single(v: AllOrderedS)
    requires
        v.components.len() == 1,
    ensures
        s_from_all_ordered(v) == CombinedValueS::Single(v.components[0]),
{
}

/// The collapsing constructors commute with the models.
pub proof fn lemma_from_all_ordered_view(v: AllOrdered)
    ensures
        cv_view(CombinedValue::spec_from_all_ordered(v)) == s_from_all_ordered(ao_view(v)),
{
    lemma_singles_view_len(v.components@);
}

pub proof fn lemma_from_all_unordered_view(v: AllUnordered)
    ensures
        cv_view(CombinedValue::spec_from_all_unordered(v)) == s_from_all_unordered(au_view(v)),
{
    lemma_aos_view_len(v.components@);
    if v.components@.len() == 1 {
        lemma_from_all_ordered_view(v.components@[0]);
    }
}

pub proof fn lemma_from_one_or_more_unordered_view(v: OneOrMoreUnordered)
    ensures
        cv_view(CombinedValue::spec_from_one_or_more_unordered(v)) == s_from_one_or_more_unordered(
            om_view(v),
        ),
{
    lemma_aus_view_len(v.components@);
    if v.components@.len() == 1 {
        lemma_from_all_unordered_view(v.components@[0]);
    }
}

pub proof fn lemma_from_enumeration_view(v: Enumeration)
    ensures
        cv_view(CombinedValue::spec_from_enumeration(v)) == s_from_enumeration(enum_view(v)),
{
    lemma_oms_view_len(v.components@);
    if v.components@.len() == 1 {
        lemma_from_one_or_more_unordered_view(v.components@[0]);
    }
}

/// Appending to a component list appends its model.
pub proof fn lemma_singles_view_push(cs: Seq<SingleValue>, x: SingleValue)
    ensures
        singles_view(cs.push(x)) == singles_view(cs).push(single_view(x)),
    decreases cs,
{
    if cs.len() == 0 {
        assert(cs.push(x)[0] == x);
        assert(cs.push(x).drop_first() =~= Seq::<SingleValue>::empty());
        assert(singles_view(Seq::<SingleValue>::empty()) =~= Seq::<SingleValueS>::empty());
        assert(singles_view(cs.push(x)) =~~= singles_view(cs).push(single_view(x)));
    } else {
        assert(cs.push(x)[0] == cs[0]);
        assert(cs.push(x).drop_first() =~= cs.drop_first().push(x));
        lemma_singles_view_push(cs.drop_first(), x);
        assert(singles_view(cs.push(x)) =~~= singles_view(cs).push(single_view(x)));
    }
}

pub proof fn lemma_aos_view_push(cs: Seq<AllOrdered>, x: AllOrdered)
    ensures
        aos_view(cs.push(x)) == aos_view(cs).push(ao_view(x)),
    decreases cs,
{
    if cs.len() == 0 {
        assert(cs.push(x)[0] == x);
        assert(cs.push(x).drop_first() =~= Seq::<AllOrdered>::empty());
        assert(aos_view(Seq::<AllOrdered>::empty()) =~= Seq::<AllOrderedS>::empty());
        assert(aos_view(cs.push(x)) =~~= aos_view(cs).push(ao_view(x)));
    } else {
        assert(cs.push(x)[0] == cs[0]);
        assert(cs.push(x).drop_first() =~= cs.drop_first().push(x));
        lemma_aos_view_push(cs.drop_first(), x);
        assert(aos_view(cs.push(x)) =~~= aos_view(cs).push(ao_view(x)));
    }
}

pub proof fn lemma_aus_view_push(cs: Seq<AllUnordered>, x: AllUnordered)
    ensures
        aus_view(cs.push(x)) == aus_view(cs).push(au_view(x)),
    decreases cs,
{
    if cs.len() == 0 {
        assert(cs.push(x)[0] == x);
        assert(cs.push(x).drop_first() =~= Seq::<AllUnordered>::empty());
        assert(aus_view(Seq::<AllUnordered>::empty()) =~= Seq::<AllUnorderedS>::empty());
        assert(aus_view(cs.push(x)) =~~= aus_view(cs).push(au_view(x)));
    } else {
        assert(cs.push(x)[0] == cs[0]);
        assert(cs.push(x).drop_first() =~= cs.drop_first().push(x));
        lemma_aus_view_push(cs.drop_first(), x);
        assert(aus_view(cs.push(x)) =~~= aus_view(cs).push(au_view(x)));
    }
}

pub proof fn lemma_oms_view_push(cs: Seq<OneOrMoreUnordered>, x: OneOrMoreUnordered)
    ensures
        oms_view(cs.push(x)) == oms_view(cs).push(om_view(x)),
    decreases cs,
{
    if cs.len() == 0 {
        assert(cs.push(x)[0] == x);
        assert(cs.push(x).drop_first() =~= Seq::<OneOrMoreUnordered>::empty());
        assert(oms_view(Seq::<OneOrMoreUnordered>::empty()) =~= Seq::<OneOrMoreUnorderedS>::empty());
        assert(oms_view(cs.push(x)) =~~= oms_view(cs).push(om_view(x)));
    } else {
        assert(cs.push(x)[0] == cs[0]);
        assert(cs.push(x).drop_first() =~= cs.drop_first().push(x));
        lemma_oms_view_push(cs.drop_first(), x);
        assert(oms_view(cs.push(x)) =~~= oms_view(cs).push(om_view(x)));
    }
}

pub proof fn lemma_vdefs_view_push(vs: Seq<ValueDefinition>, x: ValueDefinition)
    ensures
        vdefs_view(vs.push(x)) == vdefs_view(vs).push(vdef_view(x)),
    decreases vs,
{
    if vs.len() == 0 {
        assert(vs.push(x)[0] == x);
        assert(vs.push(x).drop_first() =~= Seq::<ValueDefinition>::empty());
        assert(vdefs_view(Seq::<ValueDefinition>::empty()) =~= Seq::<ValueDefinitionS>::empty());
        assert(vdefs_view(vs.push(x)) =~~= vdefs_view(vs).push(vdef_view(x)));
    } else {
        assert(vs.push(x)[0] == vs[0]);
        assert(vs.push(x).drop_first() =~= vs.drop_first().push(x));
        lemma_vdefs_view_push(vs.drop_first(), x);
        assert(vdefs_view(vs.push(x)) =~~= vdefs_view(vs).push(vdef_view(x)));
    }
}

} // verus!
