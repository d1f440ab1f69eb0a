//! The synthesized schema: value type descriptors, named type declarations
//! and the dependency tree that resolution produces from a grammar AST.

use vstd::prelude::*;

verus! {

/// A semantic fault found while resolving a grammar.
#[derive(Clone, Copy, Debug, PartialEq, Eq, Structural)]
pub enum GrammarError {
    /// A repetition range's lower bound is zero.
    RangeLowerBoundZero,
    /// A repetition range's upper bound is below its lower bound.
    RangeUpperBelowLower,
}

/// A value type descriptor.
pub enum ValueType {
    /// A named type.
    Named(String),
    /// A quoted literal token.
    LitStr,
    /// An ordered tuple of types.
    Tuple(Vec<ValueType>),
    /// An optional wrapping.
    Optional(Box<ValueType>),
    /// A collection of a type.
    Collection(Box<ValueType>),
}

/// The mathematical model of a value type descriptor.
#[verifier::ext_equal]
pub enum ValueTypeS {
    Named(Seq<char>),
    LitStr,
    Tuple(Seq<ValueTypeS>),
    Optional(Box<ValueTypeS>),
    Collection(Box<ValueTypeS>),
}

/// The models of a sequence of value types.
pub open spec fn vts_of(elems: Seq<ValueType>) -> Seq<ValueTypeS>
    decreases elems,
{
    if elems.len() == 0 {
        Seq::empty()
    } else {
        seq![vt_of(elems[0])] + vts_of(elems.drop_first())
    }
}

/// The model of a value type descriptor.
pub open spec fn vt_of(v: ValueType) -> ValueTypeS
    decreases v,
{
    match v {
        ValueType::Named(s) => ValueTypeS::Named(s@),
        ValueType::LitStr => ValueTypeS::LitStr,
        ValueType::Tuple(es) => ValueTypeS::Tuple(vts_of(es@)),
        ValueType::Optional(b) => ValueTypeS::Optional(Box::new(vt_of(*b))),
        ValueType::Collection(b) => ValueTypeS::Collection(Box::new(vt_of(*b))),
    }
}

impl View for ValueType {
    type V = ValueTypeS;

    open spec fn view(&self) -> ValueTypeS {
        vt_of(*self)
    }
}

/// One variant of a synthesized tagged union.
pub struct Variant {
    pub name: String,
    pub payload: Vec<ValueType>,
}

/// The model of a variant.
#[verifier::ext_equal]
pub struct VariantS {
    pub name: Seq<char>,
    pub payload: Seq<ValueTypeS>,
}

impl View for Variant {
    type V = VariantS;

    open spec fn view(&self) -> VariantS {
        VariantS { name: self.name@, payload: vts_of(self.payload@) }
    }
}

/// The body of a declaration to emit.
pub enum Decl {
    /// `pub struct Name;`
    UnitStruct,
    /// `pub struct Name(a, b, ...);`
    TupleStruct { inner: Vec<ValueType> },
    /// `pub enum Name { V(payload), ... }`
    Enum { variants: Vec<Variant> },
}

/// The model of a declaration body.
#[verifier::ext_equal]
pub enum DeclS {
    UnitStruct,
    TupleStruct { inner: Seq<ValueTypeS> },
    Enum { variants: Seq<VariantS> },
}

impl View for Decl {
    type V = DeclS;

    open spec fn view(&self) -> DeclS {
        match self {
            Decl::UnitStruct => DeclS::UnitStruct,
            Decl::TupleStruct { inner } => (DeclS::TupleStruct { inner: vts_of(inner@) }),
            Decl::Enum { variants } => (DeclS::Enum {
                variants: variants@.map_values(|v: Variant| v@),
            }),
        }
    }
}

/// A named declaration: the name together with what to declare under it.
pub struct TypeDefinition {
    pub ident: String,
    pub decl: Decl,
}

/// The model of a named declaration.
#[verifier::ext_equal]
pub struct TypeDefS {
    pub ident: Seq<char>,
    pub decl: DeclS,
}

impl View for TypeDefinition {
    type V = TypeDefS;

    open spec fn view(&self) -> TypeDefS {
        TypeDefS { ident: self.ident@, decl: self.decl@ }
    }
}

/// A resolved schema node: its value type, an optional standalone
/// definition, and the nodes whose definitions must be emitted first.
pub struct TypeInfo {
    pub value_type: ValueType,
    pub name: Option<String>,
    pub definition: Option<TypeDefinition>,
    pub dependencies: Vec<TypeInfo>,
}

/// The model of a resolved schema node.
#[verifier::ext_equal]
pub struct TypeInfoS {
    pub value_type: ValueTypeS,
    pub name: Option<Seq<char>>,
    pub definition: Option<TypeDefS>,
    pub dependencies: Seq<TypeInfoS>,
}

/// The models of a sequence of schema nodes.
pub open spec fn infos_of(infos: Seq<TypeInfo>) -> Seq<TypeInfoS>
    decreases infos,
{
    if infos.len() == 0 {
        Seq::empty()
    } else {
        seq![info_of(infos[0])] + infos_of(infos.drop_first())
    }
}

/// The model of a schema node.
pub open spec fn info_of(info: TypeInfo) -> TypeInfoS
    decreases info,
{
    TypeInfoS {
        value_type: info.value_type@,
        name: match info.name {
            Some(n) => Some(n@),
            None => None,
        },
        definition: match info.definition {
            Some(d) => Some(d@),
            None => None,
        },
        dependencies: infos_of(info.dependencies@),
    }
}

impl View for TypeInfo {
    type V = TypeInfoS;

    open spec fn view(&self) -> TypeInfoS {
        info_of(*self)
    }
}

/// Appending to a sequence of value types appends its model.
pub proof fn lemma_vts_push(elems: Seq<ValueType>, x: ValueType)
    ensures
        vts_of(elems.push(x)) == vts_of(elems).push(vt_of(x)),
    decreases elems,
{
    if elems.len() == 0 {
        assert(elems.push(x)[0] == x);
        assert(elems.push(x).drop_first() =~= Seq::<ValueType>::empty());
        assert(vts_of(Seq::<ValueType>::empty()) =~= Seq::<ValueTypeS>::empty());
        assert(vts_of(elems.push(x)) =~~= vts_of(elems).push(vt_of(x)));
    } else {
        assert(elems.push(x)[0] == elems[0]);
        assert(elems.push(x).drop_first() =~= elems.drop_first().push(x));
        lemma_vts_push(elems.drop_first(), x);
        assert(vts_of(elems.push(x)) =~~= vts_of(elems).push(vt_of(x)));
    }
}

/// The model of a value type sequence indexes pointwise.
pub proof fn lemma_vts_index(elems: Seq<ValueType>, i: int)
    requires
        0 <= i < elems.len(),
    ensures
        vts_of(elems).len() == elems.len(),
        vts_of(elems)[i] == vt_of(elems[i]),
    decreases elems,
{
    lemma_vts_len(elems);
    if i > 0 {
        lemma_vts_index(elems.drop_first(), i - 1);
    }
}

/// The model of a value type sequence keeps its length.
pub proof fn lemma_vts_len(elems: Seq<ValueType>)
    ensures
        vts_of(elems).len() == elems.len(),
    decreases elems,
{
    if elems.len() > 0 {
        lemma_vts_len(elems.drop_first());
    }
}

/// The model of a value type sequence is its pointwise view.
pub proof fn lemma_vts_is_map(elems: Seq<ValueType>)
    ensures
        vts_of(elems) == elems.map_values(|e: ValueType| e@),
{
    lemma_vts_len(elems);
    assert forall|i: int| 0 <= i < elems.len() implies vts_of(elems)[i] == elems.map_values(
        |e: ValueType| e@,
    )[i] by {
        lemma_vts_index(elems, i);
    }
    assert(vts_of(elems) =~= elems.map_values(|e: ValueType| e@));
}

/// Appending to a sequence of schema nodes appends its model.
pub proof fn lemma_infos_push(infos: Seq<TypeInfo>, x: TypeInfo)
    ensures
        infos_of(infos.push(x)) == infos_of(infos).push(info_of(x)),
    decreases infos,
{
    if infos.len() == 0 {
        assert(infos.push(x)[0] == x);
        assert(infos.push(x).drop_first() =~= Seq::<TypeInfo>::empty());
        assert(infos_of(Seq::<TypeInfo>::empty()) =~= Seq::<TypeInfoS>::empty());
        assert(infos_of(infos.push(x)) =~~= infos_of(infos).push(info_of(x)));
    } else {
        assert(infos.push(x)[0] == infos[0]);
        assert(infos.push(x).drop_first() =~= infos.drop_first().push(x));
        lemma_infos_push(infos.drop_first(), x);
        assert(infos_of(infos.push(x)) =~~= infos_of(infos).push(info_of(x)));
    }
}

/// The model of a schema node sequence keeps its length.
pub proof fn lemma_infos_len(infos: Seq<TypeInfo>)
    ensures
        infos_of(infos).len() == infos.len(),
    decreases infos,
{
    if infos.len() > 0 {
        lemma_infos_len(infos.drop_first());
    }
}

/// The model of a schema node sequence indexes pointwise.
pub proof fn lemma_infos_index(infos: Seq<TypeInfo>, i: int)
    requires
        0 <= i < infos.len(),
    ensures
        infos_of(infos).len() == infos.len(),
        infos_of(infos)[i] == info_of(infos[i]),
    decreases infos,
{
    lemma_infos_len(infos);
    if i > 0 {
        lemma_infos_index(infos.drop_first(), i - 1);
    }
}

/// Copies a value type descriptor.
pub fn clone_value_type(v: &ValueType) -> (r: ValueType)
    ensures
        r@ == v@,
    decreases v,
{
    match v {
        ValueType::Named(s) => ValueType::Named(s.clone()),
        ValueType::LitStr => ValueType::LitStr,
        ValueType::Tuple(es) => {
            let mut out: Vec<ValueType> = Vec::new();
            let mut i: usize = 0;
            while i < es.len()
                invariant
                    i <= es@.len(),
                    *v == ValueType::Tuple(*es),
                    vts_of(out@) == vts_of(es@.take(i as int)),
                decreases es@.len() - i,
            {
                let ghost old_out = out@;
                proof {
                    assert(decreases_to!(*v => v->Tuple_0@[i as int]));
                }
                let e = clone_value_type(&es[i]);
                out.push(e);
                proof {
                    assert(es@.take(i + 1) =~= es@.take(i as int).push(es@[i as int]));
                    assert(out@ =~= old_out.push(e));
                    lemma_vts_push(old_out, e);
                    lemma_vts_push(es@.take(i as int), es@[i as int]);
                    assert(vts_of(out@) =~~= vts_of(es@.take(i + 1)));
                }
                i = i + 1;
            }
            proof {
                assert(es@.take(es@.len() as int) =~= es@);
            }
            ValueType::Tuple(out)
        },
        ValueType::Optional(b) => ValueType::Optional(Box::new(clone_value_type(b))),
        ValueType::Collection(b) => ValueType::Collection(Box::new(clone_value_type(b))),
    }
}

/// Copies a sequence of value type descriptors.
pub fn clone_value_types(vs: &Vec<ValueType>) -> (r: Vec<ValueType>)
    ensures
        vts_of(r@) == vts_of(vs@),
{
    let mut out: Vec<ValueType> = Vec::new();
    let mut i: usize = 0;
    while i < vs.len()
        invariant
            i <= vs@.len(),
            vts_of(out@) == vts_of(vs@.take(i as int)),
        decreases vs@.len() - i,
    {
        let ghost old_out = out@;
        let e = clone_value_type(&vs[i]);
        out.push(e);
        proof {
            assert(vs@.take(i + 1) =~= vs@.take(i as int).push(vs@[i as int]));
            assert(out@ =~= old_out.push(e));
            lemma_vts_push(old_out, e);
            lemma_vts_push(vs@.take(i as int), vs@[i as int]);
            assert(vts_of(out@) =~~= vts_of(vs@.take(i + 1)));
        }
        i = i + 1;
    }
    proof {
        assert(vs@.take(vs@.len() as int) =~= vs@);
    }
    out
}

/// The component types of a tuple descriptor, or the descriptor itself as
/// a one-element sequence: a synthesized definition's body flattens a
/// tuple into separate fields.
pub open spec fn spec_unwrap_tuple(vt: ValueTypeS) -> Seq<ValueTypeS> {
    match vt {
        ValueTypeS::Tuple(es) => es,
        v => seq![v],
    }
}

/// Copies the tuple components of a node's value type, or the whole type.
pub fn unwrap_tuple(vt: &ValueType) -> (r: Vec<ValueType>)
    ensures
        vts_of(r@) == spec_unwrap_tuple(vt@),
{
    match vt {
        ValueType::Tuple(es) => {
            let r = clone_value_types(es);
            r
        },
        _ => {
            let mut out: Vec<ValueType> = Vec::new();
            let c = clone_value_type(vt);
            out.push(c);
            proof {
                assert(out@ =~= seq![c]);
                assert(out@.drop_first() =~= Seq::<ValueType>::empty());
                assert(vts_of(Seq::<ValueType>::empty()) =~= Seq::<ValueTypeS>::empty());
                assert(vts_of(out@) =~~= seq![vt@]);
                assert(spec_unwrap_tuple(vt@) =~~= seq![vt@]);
            }
            out
        },
    }
}

impl TypeInfo {
    /// A bare node with the given value type.
    pub fn new(value_type: ValueType) -> (r: TypeInfo)
        ensures
            r@ == (TypeInfoS {
                value_type: value_type@,
                name: None,
                definition: None,
                dependencies: Seq::empty(),
            }),
    {
        let r = TypeInfo { value_type, name: None, definition: None, dependencies: Vec::new() };
        proof {
            assert(infos_of(r.dependencies@) =~= Seq::<TypeInfoS>::empty());
        }
        r
    }

    /// The node's own name, or — through a chain of single dependencies —
    /// the name of the node it stands for.
    pub open spec fn spec_get_name(info: TypeInfoS) -> Option<Seq<char>>
        decreases info,
    {
        match info.name {
            Some(n) => Some(n),
            None => {
                if info.dependencies.len() == 1 {
                    Self::spec_get_name(info.dependencies[0])
                } else {
                    None
                }
            },
        }
    }

    /// Resolves the node's display name.
    pub fn get_name(&self) -> (r: Option<String>)
        ensures
            (match r {
                Some(n) => Self::spec_get_name(self@) == Some(n@),
                None => Self::spec_get_name(self@) is None,
            }),
        decreases *self,
    {
        match &self.name {
            Some(n) => Some(n.clone()),
            None => {
                if self.dependencies.len() == 1 {
                    proof {
                        lemma_infos_index(self.dependencies@, 0);
                        assert(decreases_to!(*self => self.dependencies@[0int]));
                    }
                    self.dependencies[0].get_name()
                } else {
                    proof {
                        lemma_infos_len(self.dependencies@);
                    }
                    None
                }
            },
        }
    }
}

} // verus!
