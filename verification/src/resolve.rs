//! Resolution from the grammar AST to schema nodes: the naming context,
//! the multiplier resolver and the combinator resolvers.

use vstd::prelude::*;
use crate::ast::{
    AllOrdered, AllUnordered, CombinedValue, Definition, Enumeration, Multiplier,
    OneOrMoreUnordered, PrimitiveValue, PropertyDefinition, Reference, SingleValue,
    ValueDefinition, Vds,
};
use crate::schema::{
    clone_value_type, clone_value_types, infos_of, lemma_infos_index, lemma_infos_len,
    lemma_infos_push, lemma_vts_push, spec_unwrap_tuple, unwrap_tuple, vts_of, Decl, DeclS,
    GrammarError, TypeDefS, TypeDefinition, TypeInfo, TypeInfoS, ValueType, ValueTypeS, Variant,
    VariantS,
};
use crate::text::{camel_of, hex_upper_of, to_camel, u64_to_hex_upper};

verus! {

/// The model of a naming context.
#[verifier::ext_equal]
pub struct CtxS {
    pub hint: Seq<char>,
    pub is_namespace: bool,
}

/// The naming context threaded through resolution: a prefix that nested
/// constructs extend, so that synthesized names cannot collide across
/// scopes.
pub struct NamingContext {
    pub ident_hint: String,
    pub is_namespace: bool,
}

impl View for NamingContext {
    type V = CtxS;

    open spec fn view(&self) -> CtxS {
        CtxS { hint: self.ident_hint@, is_namespace: self.is_namespace }
    }
}

/// The name a context makes from a base name: its prefix, then the base.
pub open spec fn s_create(ctx: CtxS, name: Seq<char>) -> Seq<char> {
    ctx.hint + name
}

/// The child context for a nested construct under the given name.
pub open spec fn s_fork(ctx: CtxS, name: Seq<char>) -> CtxS {
    CtxS { hint: s_create(ctx, name), is_namespace: false }
}

/// The child context for the component at the given position: its name
/// part is `V` followed by the position in upper-case hexadecimal.
pub open spec fn s_fork_index(ctx: CtxS, i: nat) -> CtxS {
    s_fork(ctx, seq!['V'] + hex_upper_of(i))
}

/// The namespace context for a named rule, together with the rule's full
/// name.
pub open spec fn s_fork_namespace(ctx: CtxS, name: Seq<char>) -> CtxS {
    CtxS { hint: s_create(ctx, name), is_namespace: true }
}

/// The name an enumeration may take from its context: none inside a bare
/// namespace.
pub open spec fn s_get_ident(ctx: CtxS) -> Option<Seq<char>> {
    if ctx.is_namespace {
        None
    } else {
        Some(ctx.hint)
    }
}

impl NamingContext {
    /// The outermost context: no prefix, namespace behaviour.
    pub fn empty() -> (r: NamingContext)
        ensures
            r@ == (CtxS { hint: Seq::<char>::empty(), is_namespace: true }),
    {
        NamingContext { ident_hint: String::new(), is_namespace: true }
    }

    /// Prefixes the base name with this context's hint.
    pub fn create_ident(&self, name: &str) -> (r: String)
        ensures
            r@ == s_create(self@, name@),
    {
        let mut s = self.ident_hint.clone();
        s.append(name);
        s
    }

    /// A non-namespace child context under the given name.
    pub fn fork(&self, name: &str) -> (r: NamingContext)
        ensures
            r@ == s_fork(self@, name@),
    {
        NamingContext { ident_hint: self.create_ident(name), is_namespace: false }
    }

    /// The child context for the component at the given position.
    pub fn fork_index(&self, i: usize) -> (r: NamingContext)
        ensures
            r@ == s_fork_index(self@, i as nat),
    {
        let name = index_name(i);
        self.fork(name.as_str())
    }

    /// The namespace context for a rule of the given name, and the rule's
    /// full name.
    pub fn fork_namespace(&self, name: &str) -> (r: (String, NamingContext))
        ensures
            r.0@ == s_create(self@, name@),
            r.1@ == s_fork_namespace(self@, name@),
    {
        let ident = self.create_ident(name);
        let ctx = NamingContext { ident_hint: ident.clone(), is_namespace: true };
        (ident, ctx)
    }

    /// The name this context offers an enumeration that sits directly
    /// under it.
    pub fn get_ident(&self) -> (r: Option<String>)
        ensures
            (match r {
                Some(n) => s_get_ident(self@) == Some(n@),
                None => s_get_ident(self@) is None,
            }),
    {
        if self.is_namespace {
            None
        } else {
            Some(self.ident_hint.clone())
        }
    }
}

/// The generated name for the construct at a position: `V`, then the
/// position in upper-case hexadecimal.
pub fn index_name(i: usize) -> (r: String)
    ensures
        r@ == seq!['V'] + hex_upper_of(i as nat),
{
    let digits = u64_to_hex_upper(i as u64);
    let mut name = String::new();
    name.push('V');
    name.append(digits.as_str());
    proof {
        assert(name@ =~= seq!['V'] + hex_upper_of(i as nat));
    }
    name
}

/// What a multiplier turns an inner value type into: repetition becomes a
/// collection, `?` an optional, `!` nothing, and a bounded range `{m,n}`
/// a tuple of `m` required slots followed by `n-m` optional slots. A
/// lower bound of zero and an upper bound below the lower bound are
/// rejected.
pub open spec fn spec_apply_multiplier(m: Multiplier, vt: ValueTypeS) -> Result<
    ValueTypeS,
    GrammarError,
> {
    match m {
        Multiplier::ZeroOrMore => Ok(ValueTypeS::Collection(Box::new(vt))),
        Multiplier::OneOrMore => Ok(ValueTypeS::Collection(Box::new(vt))),
        Multiplier::OneOrMoreComma => Ok(ValueTypeS::Collection(Box::new(vt))),
        Multiplier::Optional => Ok(ValueTypeS::Optional(Box::new(vt))),
        Multiplier::Required => Ok(vt),
        Multiplier::Range(r) => {
            let (lo, hi) = r.spec_bounds();
            if lo == 0 {
                Err(GrammarError::RangeLowerBoundZero)
            } else {
                match hi {
                    Some(h) => if lo > h {
                        Err(GrammarError::RangeUpperBelowLower)
                    } else {
                        Ok(
                            ValueTypeS::Tuple(
                                Seq::new(lo as nat, |j: int| vt) + Seq::new(
                                    (h - lo) as nat,
                                    |j: int| ValueTypeS::Optional(Box::new(vt)),
                                ),
                            ),
                        )
                    },
                    None => Ok(ValueTypeS::Collection(Box::new(vt))),
                }
            }
        },
    }
}

/// Builds the value type of a bounded range: `lo` required slots of the
/// inner type, then `n_opt` optional slots.
fn range_tuple(inner: &ValueType, lo: u64, n_opt: u64) -> (r: ValueType)
    ensures
        r@ == (ValueTypeS::Tuple(
            Seq::new(lo as nat, |j: int| inner@) + Seq::new(
                n_opt as nat,
                |j: int| ValueTypeS::Optional(Box::new(inner@)),
            ),
        )),
{
    let ghost required = Seq::new(lo as nat, |j: int| inner@);
    let ghost optional = Seq::new(n_opt as nat, |j: int| ValueTypeS::Optional(Box::new(inner@)));
    let mut slots: Vec<ValueType> = Vec::new();
    let mut j: u64 = 0;
    while j < lo
        invariant
            j <= lo,
            required == Seq::new(lo as nat, |k: int| inner@),
            vts_of(slots@) == required.take(j as int),
        decreases lo - j,
    {
        let ghost old_slots = slots@;
        let c = clone_value_type(inner);
        slots.push(c);
        proof {
            assert(slots@ =~= old_slots.push(c));
            lemma_vts_push(old_slots, c);
            assert(vts_of(slots@) =~~= required.take(j + 1));
        }
        j = j + 1;
    }
    let mut j: u64 = 0;
    while j < n_opt
        invariant
            j <= n_opt,
            required == Seq::new(lo as nat, |k: int| inner@),
            optional == Seq::new(n_opt as nat, |k: int| ValueTypeS::Optional(Box::new(inner@))),
            vts_of(slots@) == required + optional.take(j as int),
        decreases n_opt - j,
    {
        let ghost old_slots = slots@;
        let c = ValueType::Optional(Box::new(clone_value_type(inner)));
        slots.push(c);
        proof {
            assert(slots@ =~= old_slots.push(c));
            lemma_vts_push(old_slots, c);
            assert(vts_of(slots@) =~~= required + optional.take(j + 1));
        }
        j = j + 1;
    }
    proof {
        assert(required.take(lo as int) =~= required);
        assert(optional.take(n_opt as int) =~= optional);
    }
    ValueType::Tuple(slots)
}

/// Applies a multiplier to a resolved node, replacing its value type.
pub fn apply_multiplier(m: &Multiplier, info: TypeInfo) -> (r: Result<TypeInfo, GrammarError>)
    ensures
        (match r {
            Ok(out) => {
                &&& spec_apply_multiplier(*m, info@.value_type) == Ok::<ValueTypeS, GrammarError>(
                    out@.value_type,
                )
                &&& out@.name == info@.name
                &&& out@.definition == info@.definition
                &&& out@.dependencies == info@.dependencies
            },
            Err(e) => spec_apply_multiplier(*m, info@.value_type) == Err::<ValueTypeS, GrammarError>(
                e,
            ),
        }),
{
    let TypeInfo { value_type, name, definition, dependencies } = info;
    match m {
        Multiplier::ZeroOrMore => Ok(
            TypeInfo {
                value_type: ValueType::Collection(Box::new(value_type)),
                name,
                definition,
                dependencies,
            },
        ),
        Multiplier::OneOrMore => Ok(
            TypeInfo {
                value_type: ValueType::Collection(Box::new(value_type)),
                name,
                definition,
                dependencies,
            },
        ),
        Multiplier::OneOrMoreComma => Ok(
            TypeInfo {
                value_type: ValueType::Collection(Box::new(value_type)),
                name,
                definition,
                dependencies,
            },
        ),
        Multiplier::Optional => Ok(
            TypeInfo {
                value_type: ValueType::Optional(Box::new(value_type)),
                name,
                definition,
                dependencies,
            },
        ),
        Multiplier::Required => Ok(TypeInfo { value_type, name, definition, dependencies }),
        Multiplier::Range(range) => {
            let (lo, hi) = range.bounds();
            if lo == 0 {
                return Err(GrammarError::RangeLowerBoundZero);
            }
            match hi {
                Some(h) => {
                    if lo > h {
                        return Err(GrammarError::RangeUpperBelowLower);
                    }
                    let vt = range_tuple(&value_type, lo, h - lo);
                    Ok(TypeInfo { value_type: vt, name, definition, dependencies })
                },
                None => Ok(
                    TypeInfo {
                        value_type: ValueType::Collection(Box::new(value_type)),
                        name,
                        definition,
                        dependencies,
                    },
                ),
            }
        },
    }
}

/// The value types of a list of resolved nodes, in order.
pub open spec fn vt_list(deps: Seq<TypeInfoS>) -> Seq<ValueTypeS> {
    deps.map_values(|d: TypeInfoS| d.value_type)
}

/// The optional-wrapped value types of a list of resolved nodes.
pub open spec fn opt_vt_list(deps: Seq<TypeInfoS>) -> Seq<ValueTypeS> {
    deps.map_values(|d: TypeInfoS| ValueTypeS::Optional(Box::new(d.value_type)))
}

/// Resolving a primitive: a keyword synthesizes a named unit struct under
/// the context's prefix, a literal stays a literal token, references name
/// the referenced type, and a group resolves its sub-grammar.
pub open spec fn spec_resolve_primitive(p: PrimitiveValue, ctx: CtxS) -> Result<
    TypeInfoS,
    GrammarError,
>
    decreases p,
{
    match p {
        PrimitiveValue::Keyword(kw) => Ok(
            TypeInfoS {
                value_type: ValueTypeS::Named(s_create(ctx, camel_of(kw.text()))),
                name: None,
                definition: Some(
                    TypeDefS {
                        ident: s_create(ctx, camel_of(kw.text())),
                        decl: DeclS::UnitStruct,
                    },
                ),
                dependencies: Seq::empty(),
            },
        ),
        PrimitiveValue::Literal(_) => Ok(
            TypeInfoS {
                value_type: ValueTypeS::LitStr,
                name: None,
                definition: None,
                dependencies: Seq::empty(),
            },
        ),
        PrimitiveValue::Reference(r) => Ok(
            TypeInfoS {
                value_type: ValueTypeS::Named(camel_of(r.ident.text())),
                name: None,
                definition: None,
                dependencies: Seq::empty(),
            },
        ),
        PrimitiveValue::PropertyReference(s) => Ok(
            TypeInfoS {
                value_type: ValueTypeS::Named(camel_of(s@)),
                name: None,
                definition: None,
                dependencies: Seq::empty(),
            },
        ),
        PrimitiveValue::Group(b) => spec_resolve_combined(*b, ctx),
    }
}

/// Resolving a primitive with its multiplier.
pub open spec fn spec_resolve_single(sv: SingleValue, ctx: CtxS) -> Result<
    TypeInfoS,
    GrammarError,
>
    decreases sv,
{
    match spec_resolve_primitive(sv.value, ctx) {
        Err(e) => Err(e),
        Ok(info) => match sv.multiplier {
            None => Ok(info),
            Some(m) => match spec_apply_multiplier(m, info.value_type) {
                Err(e) => Err(e),
                Ok(vt) => Ok(TypeInfoS { value_type: vt, ..info }),
            },
        },
    }
}

/// Resolving a list of sequence components, each under the child context
/// for its position; the first failure wins.
pub open spec fn spec_resolve_singles(cs: Seq<SingleValue>, ctx: CtxS) -> Result<
    Seq<TypeInfoS>,
    GrammarError,
>
    decreases cs,
{
    if cs.len() == 0 {
        Ok(Seq::empty())
    } else {
        match spec_resolve_singles(cs.drop_last(), ctx) {
            Err(e) => Err(e),
            Ok(ds) => match spec_resolve_single(
                cs.last(),
                s_fork_index(ctx, (cs.len() - 1) as nat),
            ) {
                Err(e) => Err(e),
                Ok(d) => Ok(ds.push(d)),
            },
        }
    }
}

/// Resolving a sequence: a lone component resolves to itself, several
/// become a tuple of their value types, in order.
pub open spec fn spec_resolve_all_ordered(ao: AllOrdered, ctx: CtxS) -> Result<
    TypeInfoS,
    GrammarError,
>
    decreases ao,
{
    if ao.components@.len() == 1 {
        spec_resolve_single(ao.components@[0], ctx)
    } else {
        match spec_resolve_singles(ao.components@, ctx) {
            Err(e) => Err(e),
            Ok(deps) => Ok(
                TypeInfoS {
                    value_type: ValueTypeS::Tuple(vt_list(deps)),
                    name: None,
                    definition: None,
                    dependencies: deps,
                },
            ),
        }
    }
}

pub open spec fn spec_resolve_all_ordereds(cs: Seq<AllOrdered>, ctx: CtxS) -> Result<
    Seq<TypeInfoS>,
    GrammarError,
>
    decreases cs,
{
    if cs.len() == 0 {
        Ok(Seq::empty())
    } else {
        match spec_resolve_all_ordereds(cs.drop_last(), ctx) {
            Err(e) => Err(e),
            Ok(ds) => match spec_resolve_all_ordered(
                cs.last(),
                s_fork_index(ctx, (cs.len() - 1) as nat),
            ) {
                Err(e) => Err(e),
                Ok(d) => Ok(ds.push(d)),
            },
        }
    }
}

/// Resolving an all-unordered node: the type is the same tuple a sequence
/// would get; free input order is the parser's business, not the type's.
pub open spec fn spec_resolve_all_unordered(au: AllUnordered, ctx: CtxS) -> Result<
    TypeInfoS,
    GrammarError,
>
    decreases au,
{
    if au.components@.len() == 1 {
        spec_resolve_all_ordered(au.components@[0], ctx)
    } else {
        match spec_resolve_all_ordereds(au.components@, ctx) {
            Err(e) => Err(e),
            Ok(deps) => Ok(
                TypeInfoS {
                    value_type: ValueTypeS::Tuple(vt_list(deps)),
                    name: None,
                    definition: None,
                    dependencies: deps,
                },
            ),
        }
    }
}

pub open spec fn spec_resolve_all_unordereds(cs: Seq<AllUnordered>, ctx: CtxS) -> Result<
    Seq<TypeInfoS>,
    GrammarError,
>
    decreases cs,
{
    if cs.len() == 0 {
        Ok(Seq::empty())
    } else {
        match spec_resolve_all_unordereds(cs.drop_last(), ctx) {
            Err(e) => Err(e),
            Ok(ds) => match spec_resolve_all_unordered(
                cs.last(),
                s_fork_index(ctx, (cs.len() - 1) as nat),
            ) {
                Err(e) => Err(e),
                Ok(d) => Ok(ds.push(d)),
            },
        }
    }
}

/// Resolving a one-or-more-unordered node: a tuple of the components'
/// optional-wrapped value types.
pub open spec fn spec_resolve_one_or_more(om: OneOrMoreUnordered, ctx: CtxS) -> Result<
    TypeInfoS,
    GrammarError,
>
    decreases om,
{
    if om.components@.len() == 1 {
        spec_resolve_all_unordered(om.components@[0], ctx)
    } else {
        match spec_resolve_all_unordereds(om.components@, ctx) {
            Err(e) => Err(e),
            Ok(deps) => Ok(
                TypeInfoS {
                    value_type: ValueTypeS::Tuple(opt_vt_list(deps)),
                    name: None,
                    definition: None,
                    dependencies: deps,
                },
            ),
        }
    }
}

pub open spec fn spec_resolve_one_or_mores(cs: Seq<OneOrMoreUnordered>, ctx: CtxS) -> Result<
    Seq<TypeInfoS>,
    GrammarError,
>
    decreases cs,
{
    if cs.len() == 0 {
        Ok(Seq::empty())
    } else {
        match spec_resolve_one_or_mores(cs.drop_last(), ctx) {
            Err(e) => Err(e),
            Ok(ds) => match spec_resolve_one_or_more(
                cs.last(),
                s_fork_index(ctx, (cs.len() - 1) as nat),
            ) {
                Err(e) => Err(e),
                Ok(d) => Ok(ds.push(d)),
            },
        }
    }
}

/// The variant an enumeration gets for one alternative: named after the
/// alternative where it has a name, a generated position name otherwise;
/// its payload is the alternative's value type, tuples flattened.
pub open spec fn spec_variant(dep: TypeInfoS, i: nat) -> VariantS {
    VariantS {
        name: match TypeInfo::spec_get_name(dep) {
            Some(n) => n,
            None => seq!['V'] + hex_upper_of(i),
        },
        payload: spec_unwrap_tuple(dep.value_type),
    }
}

pub open spec fn spec_variants(deps: Seq<TypeInfoS>) -> Seq<VariantS>
    decreases deps,
{
    if deps.len() == 0 {
        Seq::empty()
    } else {
        spec_variants(deps.drop_last()).push(spec_variant(deps.last(), (deps.len() - 1) as nat))
    }
}

/// Resolving an enumeration: a tagged union with one variant per
/// alternative, named from the context or with a generated name.
pub open spec fn spec_resolve_enumeration(e: Enumeration, ctx: CtxS) -> Result<
    TypeInfoS,
    GrammarError,
>
    decreases e,
{
    if e.components@.len() == 1 {
        spec_resolve_one_or_more(e.components@[0], ctx)
    } else {
        let ident = match s_get_ident(ctx) {
            Some(id) => id,
            None => s_create(ctx, "Inner"@),
        };
        match spec_resolve_one_or_mores(e.components@, ctx) {
            Err(e) => Err(e),
            Ok(deps) => Ok(
                TypeInfoS {
                    value_type: ValueTypeS::Named(ident),
                    name: None,
                    definition: Some(
                        TypeDefS { ident, decl: DeclS::Enum { variants: spec_variants(deps) } },
                    ),
                    dependencies: deps,
                },
            ),
        }
    }
}

/// Resolving any combinator expression.
pub open spec fn spec_resolve_combined(cv: CombinedValue, ctx: CtxS) -> Result<
    TypeInfoS,
    GrammarError,
>
    decreases cv,
{
    match cv {
        CombinedValue::Single(sv) => spec_resolve_single(sv, ctx),
        CombinedValue::AllOrdered(v) => spec_resolve_all_ordered(v, ctx),
        CombinedValue::AllUnordered(v) => spec_resolve_all_unordered(v, ctx),
        CombinedValue::OneOrMoreUnordered(v) => spec_resolve_one_or_more(v, ctx),
        CombinedValue::Enumeration(v) => spec_resolve_enumeration(v, ctx),
    }
}

/// Collapse invariant: a sequence node with exactly one component
/// resolves to exactly what the lone component resolves to.
pub proof fn lemma_collapse_all_ordered(ao: AllOrdered, ctx: CtxS)
    requires
        ao.components@.len() == 1,
    ensures
        spec_resolve_all_ordered(ao, ctx) == spec_resolve_single(ao.components@[0], ctx),
{
}

/// Collapse invariant: an all-unordered node with exactly one component
/// resolves to exactly what the lone component resolves to.
pub proof fn lemma_collapse_all_unordered(au: AllUnordered, ctx: CtxS)
    requires
        au.components@.len() == 1,
    ensures
        spec_resolve_all_unordered(au, ctx) == spec_resolve_all_ordered(au.components@[0], ctx),
{
}

/// Collapse invariant: a one-or-more-unordered node with exactly one
/// component resolves to exactly what the lone component resolves to.
pub proof fn lemma_collapse_one_or_more(om: OneOrMoreUnordered, ctx: CtxS)
    requires
        om.components@.len() == 1,
    ensures
        spec_resolve_one_or_more(om, ctx) == spec_resolve_all_unordered(om.components@[0], ctx),
{
}

/// Collapse invariant: an enumeration with exactly one alternative
/// resolves to exactly what the lone alternative resolves to — no
/// one-variant union is synthesized.
pub proof fn lemma_collapse_enumeration(e: Enumeration, ctx: CtxS)
    requires
        e.components@.len() == 1,
    ensures
        spec_resolve_enumeration(e, ctx) == spec_resolve_one_or_more(e.components@[0], ctx),
{
}

proof fn lemma_singles_err(cs: Seq<SingleValue>, ctx: CtxS, k: int)
    requires
        0 <= k <= cs.len(),
        spec_resolve_singles(cs.take(k), ctx) is Err,
    ensures
        spec_resolve_singles(cs, ctx) == spec_resolve_singles(cs.take(k), ctx),
    decreases cs.len() - k,
{
    if k == cs.len() {
        assert(cs.take(k) =~= cs);
    } else {
        assert(cs.take(k + 1).drop_last() =~= cs.take(k));
        assert(spec_resolve_singles(cs.take(k + 1), ctx) == spec_resolve_singles(cs.take(k), ctx));
        lemma_singles_err(cs, ctx, k + 1);
    }
}

proof fn lemma_all_ordereds_err(cs: Seq<AllOrdered>, ctx: CtxS, k: int)
    requires
        0 <= k <= cs.len(),
        spec_resolve_all_ordereds(cs.take(k), ctx) is Err,
    ensures
        spec_resolve_all_ordereds(cs, ctx) == spec_resolve_all_ordereds(cs.take(k), ctx),
    decreases cs.len() - k,
{
    if k == cs.len() {
        assert(cs.take(k) =~= cs);
    } else {
        assert(cs.take(k + 1).drop_last() =~= cs.take(k));
        assert(spec_resolve_all_ordereds(cs.take(k + 1), ctx) == spec_resolve_all_ordereds(
            cs.take(k),
            ctx,
        ));
        lemma_all_ordereds_err(cs, ctx, k + 1);
    }
}

proof fn lemma_all_unordereds_err(cs: Seq<AllUnordered>, ctx: CtxS, k: int)
    requires
        0 <= k <= cs.len(),
        spec_resolve_all_unordereds(cs.take(k), ctx) is Err,
    ensures
        spec_resolve_all_unordereds(cs, ctx) == spec_resolve_all_unordereds(cs.take(k), ctx),
    decreases cs.len() - k,
{
    if k == cs.len() {
        assert(cs.take(k) =~= cs);
    } else {
        assert(cs.take(k + 1).drop_last() =~= cs.take(k));
        assert(spec_resolve_all_unordereds(cs.take(k + 1), ctx) == spec_resolve_all_unordereds(
            cs.take(k),
            ctx,
        ));
        lemma_all_unordereds_err(cs, ctx, k + 1);
    }
}

proof fn lemma_one_or_mores_err(cs: Seq<OneOrMoreUnordered>, ctx: CtxS, k: int)
    requires
        0 <= k <= cs.len(),
        spec_resolve_one_or_mores(cs.take(k), ctx) is Err,
    ensures
        spec_resolve_one_or_mores(cs, ctx) == spec_resolve_one_or_mores(cs.take(k), ctx),
    decreases cs.len() - k,
{
    if k == cs.len() {
        assert(cs.take(k) =~= cs);
    } else {
        assert(cs.take(k + 1).drop_last() =~= cs.take(k));
        assert(spec_resolve_one_or_mores(cs.take(k + 1), ctx) == spec_resolve_one_or_mores(
            cs.take(k),
            ctx,
        ));
        lemma_one_or_mores_err(cs, ctx, k + 1);
    }
}

/// Copies the value types of a list of resolved nodes.
fn deps_value_types(deps: &Vec<TypeInfo>) -> (r: Vec<ValueType>)
    ensures
        vts_of(r@) == vt_list(infos_of(deps@)),
{
    proof {
        lemma_infos_len(deps@);
    }
    let mut out: Vec<ValueType> = Vec::new();
    let mut k: usize = 0;
    while k < deps.len()
        invariant
            k <= deps@.len(),
            infos_of(deps@).len() == deps@.len(),
            vts_of(out@) == vt_list(infos_of(deps@)).take(k as int),
        decreases deps@.len() - k,
    {
        let ghost old_out = out@;
        proof {
            lemma_infos_index(deps@, k as int);
        }
        let c = clone_value_type(&deps[k].value_type);
        out.push(c);
        proof {
            assert(out@ =~= old_out.push(c));
            lemma_vts_push(old_out, c);
            assert(vt_list(infos_of(deps@)).take(k + 1) =~= vt_list(infos_of(deps@)).take(
                k as int,
            ).push(infos_of(deps@)[k as int].value_type));
            assert(vts_of(out@) =~~= vt_list(infos_of(deps@)).take(k + 1));
        }
        k = k + 1;
    }
    proof {
        assert(vt_list(infos_of(deps@)).take(deps@.len() as int) =~= vt_list(infos_of(deps@)));
    }
    out
}

/// Copies the optional-wrapped value types of a list of resolved nodes.
fn deps_opt_value_types(deps: &Vec<TypeInfo>) -> (r: Vec<ValueType>)
    ensures
        vts_of(r@) == opt_vt_list(infos_of(deps@)),
{
    proof {
        lemma_infos_len(deps@);
    }
    let mut out: Vec<ValueType> = Vec::new();
    let mut k: usize = 0;
    while k < deps.len()
        invariant
            k <= deps@.len(),
            infos_of(deps@).len() == deps@.len(),
            vts_of(out@) == opt_vt_list(infos_of(deps@)).take(k as int),
        decreases deps@.len() - k,
    {
        let ghost old_out = out@;
        proof {
            lemma_infos_index(deps@, k as int);
        }
        let c = ValueType::Optional(Box::new(clone_value_type(&deps[k].value_type)));
        out.push(c);
        proof {
            assert(out@ =~= old_out.push(c));
            lemma_vts_push(old_out, c);
            assert(opt_vt_list(infos_of(deps@)).take(k + 1) =~= opt_vt_list(infos_of(deps@)).take(
                k as int,
            ).push(opt_vt_list(infos_of(deps@))[k as int]));
            assert(vts_of(out@) =~~= opt_vt_list(infos_of(deps@)).take(k + 1));
        }
        k = k + 1;
    }
    proof {
        assert(opt_vt_list(infos_of(deps@)).take(deps@.len() as int) =~= opt_vt_list(
            infos_of(deps@),
        ));
    }
    out
}

/// Resolves a primitive under the naming context.
pub fn resolve_primitive(p: &PrimitiveValue, ctx: &NamingContext) -> (r: Result<
    TypeInfo,
    GrammarError,
>)
    ensures
        (match r {
            Ok(info) => spec_resolve_primitive(*p, ctx@) == Ok::<TypeInfoS, GrammarError>(info@),
            Err(e) => spec_resolve_primitive(*p, ctx@) == Err::<TypeInfoS, GrammarError>(e),
        }),
    decreases *p,
{
    match p {
        PrimitiveValue::Keyword(kw) => {
            let text = kw.value();
            let camel = to_camel(text.as_str());
            let ident = ctx.create_ident(camel.as_str());
            let out = TypeInfo {
                value_type: ValueType::Named(ident.clone()),
                name: None,
                definition: Some(TypeDefinition { ident, decl: Decl::UnitStruct }),
                dependencies: Vec::new(),
            };
            proof {
                assert(infos_of(out.dependencies@) =~= Seq::<TypeInfoS>::empty());
                assert(out@ =~~= spec_resolve_primitive(*p, ctx@)->Ok_0);
            }
            Ok(out)
        },
        PrimitiveValue::Literal(_) => {
            let out = TypeInfo::new(ValueType::LitStr);
            proof {
                assert(out@ =~~= spec_resolve_primitive(*p, ctx@)->Ok_0);
            }
            Ok(out)
        },
        PrimitiveValue::Reference(r) => {
            let text = r.ident.value();
            let camel = to_camel(text.as_str());
            let out = TypeInfo::new(ValueType::Named(camel));
            proof {
                assert(out@ =~~= spec_resolve_primitive(*p, ctx@)->Ok_0);
            }
            Ok(out)
        },
        PrimitiveValue::PropertyReference(s) => {
            let camel = to_camel(s.as_str());
            let out = TypeInfo::new(ValueType::Named(camel));
            proof {
                assert(out@ =~~= spec_resolve_primitive(*p, ctx@)->Ok_0);
            }
            Ok(out)
        },
        PrimitiveValue::Group(b) => resolve_combined(b, ctx),
    }
}

/// Resolves a primitive with its multiplier.
pub fn resolve_single(sv: &SingleValue, ctx: &NamingContext) -> (r: Result<TypeInfo, GrammarError>)
    ensures
        (match r {
            Ok(info) => spec_resolve_single(*sv, ctx@) == Ok::<TypeInfoS, GrammarError>(info@),
            Err(e) => spec_resolve_single(*sv, ctx@) == Err::<TypeInfoS, GrammarError>(e),
        }),
    decreases *sv,
{
    let info = match resolve_primitive(&sv.value, ctx) {
        Ok(info) => info,
        Err(e) => {
            return Err(e);
        },
    };
    match &sv.multiplier {
        None => Ok(info),
        Some(m) => {
            let ghost info_view = info@;
            match apply_multiplier(m, info) {
                Ok(out) => {
                    proof {
                        assert(out@ =~~= (TypeInfoS {
                            value_type: out@.value_type,
                            ..info_view
                        }));
                    }
                    Ok(out)
                },
                Err(e) => Err(e),
            }
        },
    }
}

/// Resolves a sequence node.
pub fn resolve_all_ordered(ao: &AllOrdered, ctx: &NamingContext) -> (r: Result<
    TypeInfo,
    GrammarError,
>)
    ensures
        (match r {
            Ok(info) => spec_resolve_all_ordered(*ao, ctx@) == Ok::<TypeInfoS, GrammarError>(
                info@,
            ),
            Err(e) => spec_resolve_all_ordered(*ao, ctx@) == Err::<TypeInfoS, GrammarError>(e),
        }),
    decreases *ao,
{
    if ao.components.len() == 1 {
        return resolve_single(&ao.components[0], ctx);
    }
    let mut deps: Vec<TypeInfo> = Vec::new();
    let mut i: usize = 0;
    while i < ao.components.len()
        invariant
            i <= ao.components@.len(),
            ao.components@.len() != 1,
            spec_resolve_singles(ao.components@.take(i as int), ctx@) == Ok::<
                Seq<TypeInfoS>,
                GrammarError,
            >(infos_of(deps@)),
        decreases ao.components@.len() - i,
    {
        let sub = ctx.fork_index(i);
        let ghost pre = infos_of(deps@);
        proof {
            assert(ao.components@.take(i + 1).drop_last() =~= ao.components@.take(i as int));
            assert(ao.components@.take(i + 1).last() == ao.components@[i as int]);
        }
        match resolve_single(&ao.components[i], &sub) {
            Ok(d) => {
                let ghost old_deps = deps@;
                deps.push(d);
                proof {
                    assert(deps@ =~= old_deps.push(d));
                    lemma_infos_push(old_deps, d);
                    assert(spec_resolve_singles(ao.components@.take(i + 1), ctx@) == Ok::<
                        Seq<TypeInfoS>,
                        GrammarError,
                    >(infos_of(deps@)));
                }
            },
            Err(e) => {
                proof {
                    assert(spec_resolve_singles(ao.components@.take(i + 1), ctx@) == Err::<
                        Seq<TypeInfoS>,
                        GrammarError,
                    >(e));
                    lemma_singles_err(ao.components@, ctx@, i + 1);
                }
                return Err(e);
            },
        }
        i = i + 1;
    }
    proof {
        assert(ao.components@.take(ao.components@.len() as int) =~= ao.components@);
    }
    let vts = deps_value_types(&deps);
    let out = TypeInfo {
        value_type: ValueType::Tuple(vts),
        name: None,
        definition: None,
        dependencies: deps,
    };
    proof {
        assert(out@ =~~= spec_resolve_all_ordered(*ao, ctx@)->Ok_0);
    }
    Ok(out)
}

/// Resolves an all-unordered node.
pub fn resolve_all_unordered(au: &AllUnordered, ctx: &NamingContext) -> (r: Result<
    TypeInfo,
    GrammarError,
>)
    ensures
        (match r {
            Ok(info) => spec_resolve_all_unordered(*au, ctx@) == Ok::<TypeInfoS, GrammarError>(
                info@,
            ),
            Err(e) => spec_resolve_all_unordered(*au, ctx@) == Err::<TypeInfoS, GrammarError>(e),
        }),
    decreases *au,
{
    if au.components.len() == 1 {
        return resolve_all_ordered(&au.components[0], ctx);
    }
    let mut deps: Vec<TypeInfo> = Vec::new();
    let mut i: usize = 0;
    while i < au.components.len()
        invariant
            i <= au.components@.len(),
            au.components@.len() != 1,
            spec_resolve_all_ordereds(au.components@.take(i as int), ctx@) == Ok::<
                Seq<TypeInfoS>,
                GrammarError,
            >(infos_of(deps@)),
        decreases au.components@.len() - i,
    {
        let sub = ctx.fork_index(i);
        proof {
            assert(au.components@.take(i + 1).drop_last() =~= au.components@.take(i as int));
            assert(au.components@.take(i + 1).last() == au.components@[i as int]);
        }
        match resolve_all_ordered(&au.components[i], &sub) {
            Ok(d) => {
                let ghost old_deps = deps@;
                deps.push(d);
                proof {
                    assert(deps@ =~= old_deps.push(d));
                    lemma_infos_push(old_deps, d);
                    assert(spec_resolve_all_ordereds(au.components@.take(i + 1), ctx@) == Ok::<
                        Seq<TypeInfoS>,
                        GrammarError,
                    >(infos_of(deps@)));
                }
            },
            Err(e) => {
                proof {
                    assert(spec_resolve_all_ordereds(au.components@.take(i + 1), ctx@) == Err::<
                        Seq<TypeInfoS>,
                        GrammarError,
                    >(e));
                    lemma_all_ordereds_err(au.components@, ctx@, i + 1);
                }
                return Err(e);
            },
        }
        i = i + 1;
    }
    proof {
        assert(au.components@.take(au.components@.len() as int) =~= au.components@);
    }
    let vts = deps_value_types(&deps);
    let out = TypeInfo {
        value_type: ValueType::Tuple(vts),
        name: None,
        definition: None,
        dependencies: deps,
    };
    proof {
        assert(out@ =~~= spec_resolve_all_unordered(*au, ctx@)->Ok_0);
    }
    Ok(out)
}

/// Resolves a one-or-more-unordered node.
pub fn resolve_one_or_more(om: &OneOrMoreUnordered, ctx: &NamingContext) -> (r: Result<
    TypeInfo,
    GrammarError,
>)
    ensures
        (match r {
            Ok(info) => spec_resolve_one_or_more(*om, ctx@) == Ok::<TypeInfoS, GrammarError>(
                info@,
            ),
            Err(e) => spec_resolve_one_or_more(*om, ctx@) == Err::<TypeInfoS, GrammarError>(e),
        }),
    decreases *om,
{
    if om.components.len() == 1 {
        return resolve_all_unordered(&om.components[0], ctx);
    }
    let mut deps: Vec<TypeInfo> = Vec::new();
    let mut i: usize = 0;
    while i < om.components.len()
        invariant
            i <= om.components@.len(),
            om.components@.len() != 1,
            spec_resolve_all_unordereds(om.components@.take(i as int), ctx@) == Ok::<
                Seq<TypeInfoS>,
                GrammarError,
            >(infos_of(deps@)),
        decreases om.components@.len() - i,
    {
        let sub = ctx.fork_index(i);
        proof {
            assert(om.components@.take(i + 1).drop_last() =~= om.components@.take(i as int));
            assert(om.components@.take(i + 1).last() == om.components@[i as int]);
        }
        match resolve_all_unordered(&om.components[i], &sub) {
            Ok(d) => {
                let ghost old_deps = deps@;
                deps.push(d);
                proof {
                    assert(deps@ =~= old_deps.push(d));
                    lemma_infos_push(old_deps, d);
                    assert(spec_resolve_all_unordereds(om.components@.take(i + 1), ctx@) == Ok::<
                        Seq<TypeInfoS>,
                        GrammarError,
                    >(infos_of(deps@)));
                }
            },
            Err(e) => {
                proof {
                    assert(spec_resolve_all_unordereds(om.components@.take(i + 1), ctx@) == Err::<
                        Seq<TypeInfoS>,
                        GrammarError,
                    >(e));
                    lemma_all_unordereds_err(om.components@, ctx@, i + 1);
                }
                return Err(e);
            },
        }
        i = i + 1;
    }
    proof {
        assert(om.components@.take(om.components@.len() as int) =~= om.components@);
    }
    let vts = deps_opt_value_types(&deps);
    let out = TypeInfo {
        value_type: ValueType::Tuple(vts),
        name: None,
        definition: None,
        dependencies: deps,
    };
    proof {
        assert(out@ =~~= spec_resolve_one_or_more(*om, ctx@)->Ok_0);
    }
    Ok(out)
}

/// Resolves an enumeration node.
pub fn resolve_enumeration(e: &Enumeration, ctx: &NamingContext) -> (r: Result<
    TypeInfo,
    GrammarError,
>)
    ensures
        (match r {
            Ok(info) => spec_resolve_enumeration(*e, ctx@) == Ok::<TypeInfoS, GrammarError>(info@),
            Err(err) => spec_resolve_enumeration(*e, ctx@) == Err::<TypeInfoS, GrammarError>(err),
        }),
    decreases *e,
{
    if e.components.len() == 1 {
        return resolve_one_or_more(&e.components[0], ctx);
    }
    let ident = match ctx.get_ident() {
        Some(id) => id,
        None => ctx.create_ident("Inner"),
    };
    let mut deps: Vec<TypeInfo> = Vec::new();
    let mut i: usize = 0;
    while i < e.components.len()
        invariant
            i <= e.components@.len(),
            e.components@.len() != 1,
            spec_resolve_one_or_mores(e.components@.take(i as int), ctx@) == Ok::<
                Seq<TypeInfoS>,
                GrammarError,
            >(infos_of(deps@)),
        decreases e.components@.len() - i,
    {
        let sub = ctx.fork_index(i);
        proof {
            assert(e.components@.take(i + 1).drop_last() =~= e.components@.take(i as int));
            assert(e.components@.take(i + 1).last() == e.components@[i as int]);
        }
        match resolve_one_or_more(&e.components[i], &sub) {
            Ok(d) => {
                let ghost old_deps = deps@;
                deps.push(d);
                proof {
                    assert(deps@ =~= old_deps.push(d));
                    lemma_infos_push(old_deps, d);
                    assert(spec_resolve_one_or_mores(e.components@.take(i + 1), ctx@) == Ok::<
                        Seq<TypeInfoS>,
                        GrammarError,
                    >(infos_of(deps@)));
                }
            },
            Err(err) => {
                proof {
                    assert(spec_resolve_one_or_mores(e.components@.take(i + 1), ctx@) == Err::<
                        Seq<TypeInfoS>,
                        GrammarError,
                    >(err));
                    lemma_one_or_mores_err(e.components@, ctx@, i + 1);
                }
                return Err(err);
            },
        }
        i = i + 1;
    }
    proof {
        assert(e.components@.take(e.components@.len() as int) =~= e.components@);
        lemma_infos_len(deps@);
    }
    let mut variants: Vec<Variant> = Vec::new();
    let mut k: usize = 0;
    while k < deps.len()
        invariant
            k <= deps@.len(),
            infos_of(deps@).len() == deps@.len(),
            variants@.map_values(|v: Variant| v@) == spec_variants(
                infos_of(deps@).take(k as int),
            ),
        decreases deps@.len() - k,
    {
        proof {
            lemma_infos_index(deps@, k as int);
        }
        let name = match deps[k].get_name() {
            Some(n) => n,
            None => index_name(k),
        };
        let payload = unwrap_tuple(&deps[k].value_type);
        let ghost old_variants = variants@;
        variants.push(Variant { name, payload });
        proof {
            assert(variants@ =~= old_variants.push(variants@.last()));
            assert(infos_of(deps@).take(k + 1).drop_last() =~= infos_of(deps@).take(k as int));
            assert(infos_of(deps@).take(k + 1).last() == infos_of(deps@)[k as int]);
            assert(variants@.last()@ =~~= spec_variant(infos_of(deps@)[k as int], k as nat));
            assert(variants@.map_values(|v: Variant| v@) =~~= spec_variants(
                infos_of(deps@).take(k + 1),
            ));
        }
        k = k + 1;
    }
    proof {
        assert(infos_of(deps@).take(deps@.len() as int) =~= infos_of(deps@));
    }
    let out = TypeInfo {
        value_type: ValueType::Named(ident.clone()),
        name: None,
        definition: Some(TypeDefinition { ident, decl: Decl::Enum { variants } }),
        dependencies: deps,
    };
    proof {
        assert(out@ =~~= spec_resolve_enumeration(*e, ctx@)->Ok_0);
    }
    Ok(out)
}

/// Resolving one rule line: the rule's name becomes a tuple struct
/// wrapping the resolved right-hand side, whose node is the line's one
/// dependency; nested constructs are named under the rule's namespace.
pub open spec fn spec_resolve_line(ctx: CtxS, name_ident: Seq<char>, value: CombinedValue) -> Result<
    TypeInfoS,
    GrammarError,
> {
    let ident = s_create(ctx, name_ident);
    match spec_resolve_combined(value, CtxS { hint: ident, is_namespace: true }) {
        Err(e) => Err(e),
        Ok(vinfo) => Ok(
            TypeInfoS {
                value_type: ValueTypeS::Named(ident),
                name: None,
                definition: Some(
                    TypeDefS {
                        ident,
                        decl: DeclS::TupleStruct { inner: spec_unwrap_tuple(vinfo.value_type) },
                    },
                ),
                dependencies: seq![vinfo],
            },
        ),
    }
}

/// Resolving a `<name> = ...;` rule.
pub open spec fn spec_resolve_value_definition(vd: ValueDefinition, ctx: CtxS) -> Result<
    TypeInfoS,
    GrammarError,
> {
    spec_resolve_line(ctx, camel_of(vd.name.ident.text()), vd.line.value)
}

/// Resolving a `<"name"> = ...;` rule.
pub open spec fn spec_resolve_property_definition(pd: PropertyDefinition, ctx: CtxS) -> Result<
    TypeInfoS,
    GrammarError,
> {
    spec_resolve_line(ctx, camel_of(pd.name@), pd.line.value)
}

/// Resolving the definition a grammar file starts with.
pub open spec fn spec_resolve_definition(d: Definition, ctx: CtxS) -> Result<
    TypeInfoS,
    GrammarError,
> {
    match d {
        Definition::Property(pd) => spec_resolve_property_definition(pd, ctx),
        Definition::Value(vd) => spec_resolve_value_definition(vd, ctx),
    }
}

/// The outermost naming context.
pub open spec fn s_empty_ctx() -> CtxS {
    CtxS { hint: Seq::empty(), is_namespace: true }
}

/// Resolving the trailing value rules of a grammar file, each from the
/// outermost context.
pub open spec fn spec_resolve_value_definitions(vs: Seq<ValueDefinition>) -> Result<
    Seq<TypeInfoS>,
    GrammarError,
>
    decreases vs,
{
    if vs.len() == 0 {
        Ok(Seq::empty())
    } else {
        match spec_resolve_value_definitions(vs.drop_last()) {
            Err(e) => Err(e),
            Ok(ds) => match spec_resolve_value_definition(vs.last(), s_empty_ctx()) {
                Err(e) => Err(e),
                Ok(d) => Ok(ds.push(d)),
            },
        }
    }
}

/// Resolving a whole grammar file: its definition's node, with the value
/// rules' nodes appended to its dependencies.
pub open spec fn spec_resolve_vds(v: Vds) -> Result<TypeInfoS, GrammarError> {
    match spec_resolve_definition(v.definition, s_empty_ctx()) {
        Err(e) => Err(e),
        Ok(info) => match spec_resolve_value_definitions(v.values@) {
            Err(e) => Err(e),
            Ok(ds) => Ok(TypeInfoS { dependencies: info.dependencies + ds, ..info }),
        },
    }
}

proof fn lemma_value_definitions_err(vs: Seq<ValueDefinition>, k: int)
    requires
        0 <= k <= vs.len(),
        spec_resolve_value_definitions(vs.take(k)) is Err,
    ensures
        spec_resolve_value_definitions(vs) == spec_resolve_value_definitions(vs.take(k)),
    decreases vs.len() - k,
{
    if k == vs.len() {
        assert(vs.take(k) =~= vs);
    } else {
        assert(vs.take(k + 1).drop_last() =~= vs.take(k));
        assert(spec_resolve_value_definitions(vs.take(k + 1)) == spec_resolve_value_definitions(
            vs.take(k),
        ));
        lemma_value_definitions_err(vs, k + 1);
    }
}

/// Resolves one rule line under the naming context.
pub fn resolve_line(ctx: &NamingContext, name_ident: &str, value: &CombinedValue) -> (r: Result<
    TypeInfo,
    GrammarError,
>)
    ensures
        (match r {
            Ok(info) => spec_resolve_line(ctx@, name_ident@, *value) == Ok::<
                TypeInfoS,
                GrammarError,
            >(info@),
            Err(e) => spec_resolve_line(ctx@, name_ident@, *value) == Err::<
                TypeInfoS,
                GrammarError,
            >(e),
        }),
{
    let ident = ctx.create_ident(name_ident);
    let sub = NamingContext { ident_hint: ident.clone(), is_namespace: true };
    let vinfo = match resolve_combined(value, &sub) {
        Ok(v) => v,
        Err(e) => {
            return Err(e);
        },
    };
    let inner = unwrap_tuple(&vinfo.value_type);
    let mut deps: Vec<TypeInfo> = Vec::new();
    let ghost vinfo_view = vinfo@;
    deps.push(vinfo);
    let out = TypeInfo {
        value_type: ValueType::Named(ident.clone()),
        name: None,
        definition: Some(TypeDefinition { ident, decl: Decl::TupleStruct { inner } }),
        dependencies: deps,
    };
    proof {
        assert(out.dependencies@ =~= Seq::<TypeInfo>::empty().push(
            out.dependencies@[0],
        ));
        lemma_infos_push(Seq::<TypeInfo>::empty(), out.dependencies@[0]);
        assert(infos_of(Seq::<TypeInfo>::empty()) =~= Seq::<TypeInfoS>::empty());
        assert(infos_of(out.dependencies@) =~= seq![vinfo_view]);
        assert(out@ =~~= spec_resolve_line(ctx@, name_ident@, *value)->Ok_0);
    }
    Ok(out)
}

/// Resolves a `<name> = ...;` rule.
pub fn resolve_value_definition(vd: &ValueDefinition, ctx: &NamingContext) -> (r: Result<
    TypeInfo,
    GrammarError,
>)
    ensures
        (match r {
            Ok(info) => spec_resolve_value_definition(*vd, ctx@) == Ok::<TypeInfoS, GrammarError>(
                info@,
            ),
            Err(e) => spec_resolve_value_definition(*vd, ctx@) == Err::<TypeInfoS, GrammarError>(
                e,
            ),
        }),
{
    let text = vd.name.ident.value();
    let camel = to_camel(text.as_str());
    resolve_line(ctx, camel.as_str(), &vd.line.value)
}

/// Resolves a `<"name"> = ...;` rule.
pub fn resolve_property_definition(pd: &PropertyDefinition, ctx: &NamingContext) -> (r: Result<
    TypeInfo,
    GrammarError,
>)
    ensures
        (match r {
            Ok(info) => spec_resolve_property_definition(*pd, ctx@) == Ok::<
                TypeInfoS,
                GrammarError,
            >(info@),
            Err(e) => spec_resolve_property_definition(*pd, ctx@) == Err::<
                TypeInfoS,
                GrammarError,
            >(e),
        }),
{
    let camel = to_camel(pd.name.as_str());
    resolve_line(ctx, camel.as_str(), &pd.line.value)
}

/// Resolves the definition a grammar file starts with.
pub fn resolve_definition(d: &Definition, ctx: &NamingContext) -> (r: Result<
    TypeInfo,
    GrammarError,
>)
    ensures
        (match r {
            Ok(info) => spec_resolve_definition(*d, ctx@) == Ok::<TypeInfoS, GrammarError>(info@),
            Err(e) => spec_resolve_definition(*d, ctx@) == Err::<TypeInfoS, GrammarError>(e),
        }),
{
    match d {
        Definition::Property(pd) => resolve_property_definition(pd, ctx),
        Definition::Value(vd) => resolve_value_definition(vd, ctx),
    }
}

/// Resolves a whole grammar file into one schema node whose dependencies
/// carry every rule's node.
pub fn resolve_vds(v: &Vds) -> (r: Result<TypeInfo, GrammarError>)
    ensures
        (match r {
            Ok(info) => spec_resolve_vds(*v) == Ok::<TypeInfoS, GrammarError>(info@),
            Err(e) => spec_resolve_vds(*v) == Err::<TypeInfoS, GrammarError>(e),
        }),
{
    let ctx = NamingContext::empty();
    let info = match resolve_definition(&v.definition, &ctx) {
        Ok(info) => info,
        Err(e) => {
            return Err(e);
        },
    };
    let ghost info_view = info@;
    let TypeInfo { value_type, name, definition, dependencies } = info;
    let ghost base = infos_of(dependencies@);
    let mut dependencies = dependencies;
    let mut i: usize = 0;
    proof {
        assert(v.values@.take(0) =~= Seq::<ValueDefinition>::empty());
        assert(spec_resolve_value_definitions(Seq::<ValueDefinition>::empty()) == Ok::<
            Seq<TypeInfoS>,
            GrammarError,
        >(Seq::<TypeInfoS>::empty()));
        assert(infos_of(dependencies@).skip(base.len() as int) =~= Seq::<TypeInfoS>::empty());
        assert(infos_of(dependencies@).take(base.len() as int) =~= base);
    }
    while i < v.values.len()
        invariant
            i <= v.values@.len(),
            spec_resolve_definition(v.definition, s_empty_ctx()) == Ok::<TypeInfoS, GrammarError>(
                info_view,
            ),
            base == info_view.dependencies,
            spec_resolve_value_definitions(v.values@.take(i as int)) == Ok::<
                Seq<TypeInfoS>,
                GrammarError,
            >(infos_of(dependencies@).skip(base.len() as int)),
            infos_of(dependencies@).take(base.len() as int) == base,
            infos_of(dependencies@).len() >= base.len(),
        decreases v.values@.len() - i,
    {
        let sub = NamingContext::empty();
        proof {
            assert(v.values@.take(i + 1).drop_last() =~= v.values@.take(i as int));
            assert(v.values@.take(i + 1).last() == v.values@[i as int]);
        }
        match resolve_value_definition(&v.values[i], &sub) {
            Ok(d) => {
                let ghost old_deps = dependencies@;
                dependencies.push(d);
                proof {
                    assert(dependencies@ =~= old_deps.push(d));
                    lemma_infos_push(old_deps, d);
                    assert(infos_of(dependencies@).skip(base.len() as int) =~= infos_of(
                        old_deps,
                    ).skip(base.len() as int).push(d@));
                    assert(infos_of(dependencies@).take(base.len() as int) =~= base);
                    assert(spec_resolve_value_definitions(v.values@.take(i + 1)) == Ok::<
                        Seq<TypeInfoS>,
                        GrammarError,
                    >(infos_of(dependencies@).skip(base.len() as int)));
                }
            },
            Err(e) => {
                proof {
                    assert(sub@ == s_empty_ctx());
                    assert(spec_resolve_value_definitions(v.values@.take(i + 1)) == Err::<
                        Seq<TypeInfoS>,
                        GrammarError,
                    >(e));
                    lemma_value_definitions_err(v.values@, i + 1);
                    assert(spec_resolve_definition(v.definition, s_empty_ctx()) == Ok::<
                        TypeInfoS,
                        GrammarError,
                    >(info_view));
                    assert(spec_resolve_vds(*v) == Err::<TypeInfoS, GrammarError>(e));
                }
                return Err(e);
            },
        }
        i = i + 1;
    }
    proof {
        assert(v.values@.take(v.values@.len() as int) =~= v.values@);
    }
    let out = TypeInfo { value_type, name, definition, dependencies };
    proof {
        assert(infos_of(out.dependencies@).len() >= base.len());
        assert(infos_of(out.dependencies@) =~= infos_of(out.dependencies@).take(
            base.len() as int,
        ) + infos_of(out.dependencies@).skip(base.len() as int));
        assert(infos_of(out.dependencies@) =~= base + infos_of(out.dependencies@).skip(
            base.len() as int,
        ));
        assert(base == info_view.dependencies);
        assert(out@ =~~= spec_resolve_vds(*v)->Ok_0);
    }
    Ok(out)
}

/// Resolves any combinator expression under the naming context.
pub fn resolve_combined(cv: &CombinedValue, ctx: &NamingContext) -> (r: Result<
    TypeInfo,
    GrammarError,
>)
    ensures
        (match r {
            Ok(info) => spec_resolve_combined(*cv, ctx@) == Ok::<TypeInfoS, GrammarError>(info@),
            Err(e) => spec_resolve_combined(*cv, ctx@) == Err::<TypeInfoS, GrammarError>(e),
        }),
    decreases *cv,
{
    match cv {
        CombinedValue::Single(sv) => resolve_single(sv, ctx),
        CombinedValue::AllOrdered(v) => resolve_all_ordered(v, ctx),
        CombinedValue::AllUnordered(v) => resolve_all_unordered(v, ctx),
        CombinedValue::OneOrMoreUnordered(v) => resolve_one_or_more(v, ctx),
        CombinedValue::Enumeration(v) => resolve_enumeration(v, ctx),
    }
}

} // verus!
