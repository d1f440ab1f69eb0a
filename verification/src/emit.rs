//! Emission: rendering synthesized declarations to text and collecting a
//! schema node's definitions in dependency order, each name at most once.

use vstd::prelude::*;
use crate::schema::{
    infos_of, lemma_infos_index, lemma_infos_len, lemma_vts_is_map, Decl, DeclS, TypeDefS,
    TypeInfo, TypeInfoS, ValueType, ValueTypeS, Variant, VariantS,
};
use crate::text::{join_with, lemma_join_with_push};

verus! {

/// The rendered text of a value type descriptor.
pub open spec fn spec_vt_text(vt: ValueTypeS) -> Seq<char>
    decreases vt,
{
    match vt {
        ValueTypeS::Named(n) => n,
        ValueTypeS::LitStr => "LitStr"@,
        ValueTypeS::Tuple(es) => seq!['('] + join_with(spec_vt_texts(es), ", "@) + seq![')'],
        ValueTypeS::Optional(b) => "Option<"@ + spec_vt_text(*b) + seq!['>'],
        ValueTypeS::Collection(b) => "Vec<"@ + spec_vt_text(*b) + seq!['>'],
    }
}

/// The rendered texts of a list of value type descriptors.
pub open spec fn spec_vt_texts(es: Seq<ValueTypeS>) -> Seq<Seq<char>>
    decreases es,
{
    if es.len() == 0 {
        Seq::empty()
    } else {
        spec_vt_texts(es.drop_last()).push(spec_vt_text(es.last()))
    }
}

/// The rendered text of one union variant: its name, with its payload
/// types in parentheses when it has any.
pub open spec fn spec_variant_text(v: VariantS) -> Seq<char> {
    if v.payload.len() == 0 {
        v.name
    } else {
        v.name + seq!['('] + join_with(spec_vt_texts(v.payload), ", "@) + seq![')']
    }
}

pub open spec fn spec_variant_texts(vs: Seq<VariantS>) -> Seq<Seq<char>>
    decreases vs,
{
    if vs.len() == 0 {
        Seq::empty()
    } else {
        spec_variant_texts(vs.drop_last()).push(spec_variant_text(vs.last()))
    }
}

/// The rendered text of a declaration.
pub open spec fn spec_decl_text(d: TypeDefS) -> Seq<char> {
    match d.decl {
        DeclS::UnitStruct => "pub struct "@ + d.ident + seq![';'],
        DeclS::TupleStruct { inner } => "pub struct "@ + d.ident + seq!['('] + join_with(
            spec_vt_texts(inner),
            ", "@,
        ) + ");"@,
        DeclS::Enum { variants } => "pub enum "@ + d.ident + " { "@ + join_with(
            spec_variant_texts(variants),
            ", "@,
        ) + " }"@,
    }
}

fn join_string_parts(parts: Vec<String>) -> (r: String)
    ensures
        r@ == join_with(parts@.map_values(|s: String| s@), ", "@),
{
    let mut out = String::new();
    let mut i: usize = 0;
    while i < parts.len()
        invariant
            i <= parts@.len(),
            out@ == join_with(parts@.take(i as int).map_values(|s: String| s@), ", "@),
        decreases parts@.len() - i,
    {
        if i > 0 {
            out.append(", ");
        }
        out.append(parts[i].as_str());
        proof {
            let prev = parts@.take(i as int).map_values(|s: String| s@);
            assert(parts@.take(i + 1).map_values(|s: String| s@) =~= prev.push(
                parts@[i as int]@,
            ));
            lemma_join_with_push(prev, ", "@, parts@[i as int]@);
            assert(out@ =~= join_with(parts@.take(i + 1).map_values(|s: String| s@), ", "@));
        }
        i = i + 1;
    }
    proof {
        assert(parts@.take(parts@.len() as int) =~= parts@);
    }
    out
}

/// Renders a value type descriptor to text.
pub fn vt_text(v: &ValueType) -> (r: String)
    ensures
        r@ == spec_vt_text(v@),
    decreases *v,
{
    match v {
        ValueType::Named(n) => n.clone(),
        ValueType::LitStr => {
            let mut s = String::new();
            s.append("LitStr");
            s
        },
        ValueType::Tuple(es) => {
            let mut parts: Vec<String> = Vec::new();
            let mut i: usize = 0;
            while i < es.len()
                invariant
                    i <= es@.len(),
                    *v == ValueType::Tuple(*es),
                    parts@.map_values(|s: String| s@) == spec_vt_texts(vts_prefix(es@, i as int)),
                decreases es@.len() - i,
            {
                proof {
                    assert(decreases_to!(*v => v->Tuple_0@[i as int]));
                }
                let t = vt_text(&es[i]);
                let ghost old_parts = parts@;
                parts.push(t);
                proof {
                    assert(vts_prefix(es@, i + 1).drop_last() =~= vts_prefix(es@, i as int));
                    assert(vts_prefix(es@, i + 1).last() == es@[i as int]@);
                    assert(parts@ =~= old_parts.push(t));
                    assert(parts@.map_values(|s: String| s@) =~~= spec_vt_texts(
                        vts_prefix(es@, i + 1),
                    ));
                }
                i = i + 1;
            }
            proof {
                lemma_vts_prefix_all(es@);
            }
            let joined = join_string_parts(parts);
            let mut out = String::new();
            out.push('(');
            out.append(joined.as_str());
            out.push(')');
            proof {
                lemma_vts_is_map(es@);
                assert(out@ =~= spec_vt_text(v@));
            }
            out
        },
        ValueType::Optional(b) => {
            let inner = vt_text(b);
            let mut out = String::new();
            out.append("Option<");
            out.append(inner.as_str());
            out.push('>');
            proof {
                assert(out@ =~= spec_vt_text(v@));
            }
            out
        },
        ValueType::Collection(b) => {
            let inner = vt_text(b);
            let mut out = String::new();
            out.append("Vec<");
            out.append(inner.as_str());
            out.push('>');
            proof {
                assert(out@ =~= spec_vt_text(v@));
            }
            out
        },
    }
}

/// The models of the first `i` elements of a list of value types.
pub open spec fn vts_prefix(es: Seq<ValueType>, i: int) -> Seq<ValueTypeS> {
    es.take(i).map_values(|e: ValueType| e@)
}

proof fn lemma_vts_prefix_all(es: Seq<ValueType>)
    ensures
        vts_prefix(es, es.len() as int) == es.map_values(|e: ValueType| e@),
{
    assert(es.take(es.len() as int) =~= es);
}

/// `spec_vt_texts` over a full mapped list, stated over the exec list.
pub open spec fn vt_texts_of(es: Seq<ValueType>) -> Seq<Seq<char>> {
    spec_vt_texts(es.map_values(|e: ValueType| e@))
}

/// Renders the types of a list, in order.
fn vt_texts(es: &Vec<ValueType>) -> (r: Vec<String>)
    ensures
        r@.map_values(|s: String| s@) == vt_texts_of(es@),
{
    let mut parts: Vec<String> = Vec::new();
    let mut i: usize = 0;
    while i < es.len()
        invariant
            i <= es@.len(),
            parts@.map_values(|s: String| s@) == spec_vt_texts(vts_prefix(es@, i as int)),
        decreases es@.len() - i,
    {
        let t = vt_text(&es[i]);
        let ghost old_parts = parts@;
        parts.push(t);
        proof {
            assert(vts_prefix(es@, i + 1).drop_last() =~= vts_prefix(es@, i as int));
            assert(vts_prefix(es@, i + 1).last() == es@[i as int]@);
            assert(parts@ =~= old_parts.push(t));
            assert(parts@.map_values(|s: String| s@) =~~= spec_vt_texts(vts_prefix(es@, i + 1)));
        }
        i = i + 1;
    }
    proof {
        lemma_vts_prefix_all(es@);
    }
    parts
}

/// Renders one variant.
fn variant_text(v: &Variant) -> (r: String)
    ensures
        r@ == spec_variant_text(v@),
{
    let mut out = v.name.clone();
    if v.payload.len() > 0 {
        let parts = vt_texts(&v.payload);
        let joined = join_string_parts(parts);
        out.push('(');
        out.append(joined.as_str());
        out.push(')');
        proof {
            lemma_vts_is_map(v.payload@);
            assert(out@ =~= spec_variant_text(v@));
        }
    } else {
        proof {
            lemma_vts_is_map(v.payload@);
            assert(v@.payload.len() == 0);
        }
    }
    out
}

/// Renders a whole declaration to text.
pub fn decl_text(ident: &String, decl: &Decl) -> (r: String)
    ensures
        r@ == spec_decl_text(TypeDefS { ident: ident@, decl: decl@ }),
{
    match decl {
        Decl::UnitStruct => {
            let mut out = String::new();
            out.append("pub struct ");
            out.append(ident.as_str());
            out.push(';');
            proof {
                assert(out@ =~= spec_decl_text(TypeDefS { ident: ident@, decl: decl@ }));
            }
            out
        },
        Decl::TupleStruct { inner } => {
            let parts = vt_texts(inner);
            let joined = join_string_parts(parts);
            let mut out = String::new();
            out.append("pub struct ");
            out.append(ident.as_str());
            out.push('(');
            out.append(joined.as_str());
            out.append(");");
            proof {
                lemma_vts_is_map(inner@);
                assert(out@ =~= spec_decl_text(TypeDefS { ident: ident@, decl: decl@ }));
            }
            out
        },
        Decl::Enum { variants } => {
            let mut parts: Vec<String> = Vec::new();
            let mut i: usize = 0;
            while i < variants.len()
                invariant
                    i <= variants@.len(),
                    parts@.map_values(|s: String| s@) == spec_variant_texts(
                        variants@.take(i as int).map_values(|x: Variant| x@),
                    ),
                decreases variants@.len() - i,
            {
                let t = variant_text(&variants[i]);
                let ghost old_parts = parts@;
                parts.push(t);
                proof {
                    let whole = variants@.take(i + 1).map_values(|x: Variant| x@);
                    assert(whole.drop_last() =~= variants@.take(i as int).map_values(
                        |x: Variant| x@,
                    ));
                    assert(whole.last() == variants@[i as int]@);
                    assert(parts@ =~= old_parts.push(t));
                    assert(parts@.map_values(|s: String| s@) =~~= spec_variant_texts(whole));
                }
                i = i + 1;
            }
            proof {
                assert(variants@.take(variants@.len() as int) =~= variants@);
            }
            let joined = join_string_parts(parts);
            let mut out = String::new();
            out.append("pub enum ");
            out.append(ident.as_str());
            out.append(" { ");
            out.append(joined.as_str());
            out.append(" }");
            proof {
                assert(out@ =~= spec_decl_text(TypeDefS { ident: ident@, decl: decl@ }));
            }
            out
        },
    }
}

/// One emitted declaration: the type's name and its full text.
pub struct EmittedDef {
    pub ident: String,
    pub text: String,
}

/// The model of an emitted declaration.
#[verifier::ext_equal]
pub struct EmitS {
    pub ident: Seq<char>,
    pub text: Seq<char>,
}

impl View for EmittedDef {
    type V = EmitS;

    open spec fn view(&self) -> EmitS {
        EmitS { ident: self.ident@, text: self.text@ }
    }
}

/// The models of a list of emitted declarations.
pub open spec fn emits_of(out: Seq<EmittedDef>) -> Seq<EmitS> {
    out.map_values(|e: EmittedDef| e@)
}

/// Whether a name was already emitted.
pub open spec fn acc_has_ident(acc: Seq<EmitS>, x: Seq<char>) -> bool {
    exists|j: int| 0 <= j < acc.len() && acc[j].ident == x
}

/// The emission of one definition.
pub open spec fn def_emit(d: TypeDefS) -> EmitS {
    EmitS { ident: d.ident, text: spec_decl_text(d) }
}

/// Collecting a node's definitions: first, in order, everything in its
/// dependency subtrees; then its own definition, unless that name was
/// already emitted.
pub open spec fn spec_collect(info: TypeInfoS, acc: Seq<EmitS>) -> Seq<EmitS>
    decreases info, 1int,
{
    let acc2 = spec_collect_list(info.dependencies, acc);
    match info.definition {
        Some(d) => if acc_has_ident(acc2, d.ident) {
            acc2
        } else {
            acc2.push(def_emit(d))
        },
        None => acc2,
    }
}

pub open spec fn spec_collect_list(deps: Seq<TypeInfoS>, acc: Seq<EmitS>) -> Seq<EmitS>
    decreases deps, 0int,
{
    if deps.len() == 0 {
        acc
    } else {
        spec_collect_list(deps.drop_first(), spec_collect(deps[0], acc))
    }
}

fn has_ident(out: &Vec<EmittedDef>, x: &String) -> (r: bool)
    ensures
        r == acc_has_ident(emits_of(out@), x@),
{
    let mut j: usize = 0;
    while j < out.len()
        invariant
            j <= out@.len(),
            forall|k: int| 0 <= k < j ==> emits_of(out@)[k].ident != x@,
        decreases out@.len() - j,
    {
        if out[j].ident == *x {
            proof {
                assert(emits_of(out@)[j as int].ident == x@);
            }
            return true;
        }
        j = j + 1;
    }
    false
}

/// Collects into `out` everything the node adds.
fn collect_into(info: &TypeInfo, out: &mut Vec<EmittedDef>)
    ensures
        emits_of(final(out)@) == spec_collect(info@, emits_of(old(out)@)),
    decreases *info,
{
    let ghost entry = emits_of(out@);
    let ghost dep_views = infos_of(info.dependencies@);
    proof {
        lemma_infos_len(info.dependencies@);
        assert(dep_views.skip(0) =~= dep_views);
    }
    let mut i: usize = 0;
    while i < info.dependencies.len()
        invariant
            i <= info.dependencies@.len(),
            dep_views == infos_of(info.dependencies@),
            dep_views.len() == info.dependencies@.len(),
            spec_collect_list(dep_views.skip(i as int), emits_of(out@)) == spec_collect_list(
                dep_views,
                entry,
            ),
        decreases info.dependencies@.len() - i,
    {
        proof {
            lemma_infos_index(info.dependencies@, i as int);
            assert(decreases_to!(*info => info.dependencies@[i as int]));
        }
        let ghost before = emits_of(out@);
        collect_into(&info.dependencies[i], out);
        proof {
            assert(dep_views.skip(i as int).drop_first() =~= dep_views.skip(i + 1));
            assert(dep_views.skip(i as int)[0] == dep_views[i as int]);
            assert(spec_collect_list(dep_views.skip(i as int), before)
                == spec_collect_list(dep_views.skip(i + 1), spec_collect(dep_views[i as int], before)));
        }
        i = i + 1;
    }
    proof {
        assert(dep_views.skip(dep_views.len() as int) =~= Seq::<TypeInfoS>::empty());
        assert(emits_of(out@) == spec_collect_list(dep_views, entry));
    }
    match &info.definition {
        Some(def) => {
            if !has_ident(out, &def.ident) {
                let text = decl_text(&def.ident, &def.decl);
                let ghost before_push = emits_of(out@);
                let entry_def = EmittedDef { ident: def.ident.clone(), text };
                out.push(entry_def);
                proof {
                    assert(emits_of(out@) =~~= before_push.push(def_emit(def@)));
                    assert(emits_of(out@) =~~= spec_collect(info@, entry));
                }
            } else {
                proof {
                    assert(emits_of(out@) =~~= spec_collect(info@, entry));
                }
            }
        },
        None => {
            proof {
                assert(emits_of(out@) =~~= spec_collect(info@, entry));
            }
        },
    }
}

/// Collects every definition reachable from the node, dependencies before
/// dependents, each name at most once.
pub fn collect_definitions(info: &TypeInfo) -> (r: Vec<EmittedDef>)
    ensures
        emits_of(r@) == spec_collect(info@, Seq::empty()),
{
    let mut out: Vec<EmittedDef> = Vec::new();
    proof {
        assert(emits_of(out@) =~= Seq::<EmitS>::empty());
    }
    collect_into(info, &mut out);
    out
}

/// No name is emitted twice.
pub open spec fn distinct_idents(acc: Seq<EmitS>) -> bool {
    forall|i: int, j: int| 0 <= i < j < acc.len() ==> acc[i].ident != acc[j].ident
}

/// Collection preserves freedom from duplicate names: starting from
/// nothing, every name appears at most once in the emitted list.
pub proof fn lemma_collect_distinct(info: TypeInfoS, acc: Seq<EmitS>)
    requires
        distinct_idents(acc),
    ensures
        distinct_idents(spec_collect(info, acc)),
    decreases info, 1int,
{
    lemma_collect_list_distinct(info.dependencies, acc);
    let acc2 = spec_collect_list(info.dependencies, acc);
    match info.definition {
        Some(d) => {
            if !acc_has_ident(acc2, d.ident) {
                assert forall|i: int, j: int|
                    0 <= i < j < acc2.push(def_emit(d)).len() implies acc2.push(def_emit(d))[i].ident
                    != acc2.push(def_emit(d))[j].ident by {
                    if j < acc2.len() {
                    } else {
                        assert(!(acc2[i].ident == d.ident));
                    }
                }
            }
        },
        None => {},
    }
}

pub proof fn lemma_collect_list_distinct(deps: Seq<TypeInfoS>, acc: Seq<EmitS>)
    requires
        distinct_idents(acc),
    ensures
        distinct_idents(spec_collect_list(deps, acc)),
    decreases deps, 0int,
{
    if deps.len() > 0 {
        lemma_collect_distinct(deps[0], acc);
        lemma_collect_list_distinct(deps.drop_first(), spec_collect(deps[0], acc));
    }
}

/// Collection only appends: what was emitted stays, in place.
pub proof fn lemma_collect_prefix(info: TypeInfoS, acc: Seq<EmitS>)
    ensures
        spec_collect(info, acc).len() >= acc.len(),
        spec_collect(info, acc).take(acc.len() as int) == acc,
    decreases info, 1int,
{
    lemma_collect_list_prefix(info.dependencies, acc);
    let acc2 = spec_collect_list(info.dependencies, acc);
    match info.definition {
        Some(d) => {
            if !acc_has_ident(acc2, d.ident) {
                assert(acc2.push(def_emit(d)).take(acc.len() as int) =~= acc2.take(
                    acc.len() as int,
                ));
            }
        },
        None => {},
    }
}

pub proof fn lemma_collect_list_prefix(deps: Seq<TypeInfoS>, acc: Seq<EmitS>)
    ensures
        spec_collect_list(deps, acc).len() >= acc.len(),
        spec_collect_list(deps, acc).take(acc.len() as int) == acc,
    decreases deps, 0int,
{
    if deps.len() > 0 {
        lemma_collect_prefix(deps[0], acc);
        let acc1 = spec_collect(deps[0], acc);
        lemma_collect_list_prefix(deps.drop_first(), acc1);
        assert(spec_collect_list(deps, acc).take(acc.len() as int) =~= acc1.take(
            acc.len() as int,
        ).take(acc.len() as int));
    }
}

/// The names defined anywhere in a node's subtree, dependencies first,
/// the node's own definition last.
pub open spec fn subtree_def_idents(info: TypeInfoS) -> Seq<Seq<char>>
    decreases info, 1int,
{
    subtree_def_idents_list(info.dependencies) + (match info.definition {
        Some(d) => seq![d.ident],
        None => Seq::<Seq<char>>::empty(),
    })
}

pub open spec fn subtree_def_idents_list(deps: Seq<TypeInfoS>) -> Seq<Seq<char>>
    decreases deps, 0int,
{
    if deps.len() == 0 {
        Seq::empty()
    } else {
        subtree_def_idents(deps[0]) + subtree_def_idents_list(deps.drop_first())
    }
}

/// Where a name first appears in the emitted list.
pub open spec fn first_ident_index(acc: Seq<EmitS>, x: Seq<char>) -> int
    decreases acc.len(),
{
    if acc.len() == 0 {
        0
    } else if acc[0].ident == x {
        0
    } else {
        1 + first_ident_index(acc.drop_first(), x)
    }
}

proof fn lemma_first_index_props(acc: Seq<EmitS>, x: Seq<char>)
    requires
        acc_has_ident(acc, x),
    ensures
        0 <= first_ident_index(acc, x) < acc.len(),
        acc[first_ident_index(acc, x)].ident == x,
    decreases acc.len(),
{
    if acc.len() > 0 && acc[0].ident != x {
        assert(acc_has_ident(acc.drop_first(), x)) by {
            let j = choose|j: int| 0 <= j < acc.len() && acc[j].ident == x;
            assert(acc.drop_first()[j - 1].ident == x);
        }
        lemma_first_index_props(acc.drop_first(), x);
    }
}

proof fn lemma_first_index_append(acc: Seq<EmitS>, more: Seq<EmitS>, x: Seq<char>)
    requires
        acc_has_ident(acc, x),
    ensures
        acc_has_ident(acc + more, x),
        first_ident_index(acc + more, x) == first_ident_index(acc, x),
    decreases acc.len(),
{
    lemma_first_index_props(acc, x);
    let j = first_ident_index(acc, x);
    assert((acc + more)[j].ident == x);
    if acc[0].ident == x {
        assert((acc + more)[0].ident == x);
    } else {
        assert(acc_has_ident(acc.drop_first(), x)) by {
            let w = choose|w: int| 0 <= w < acc.len() && acc[w].ident == x;
            assert(acc.drop_first()[w - 1].ident == x);
        }
        assert((acc + more).drop_first() =~= acc.drop_first() + more);
        lemma_first_index_append(acc.drop_first(), more, x);
    }
}

proof fn lemma_first_index_after(acc: Seq<EmitS>, e: EmitS)
    requires
        !acc_has_ident(acc, e.ident),
    ensures
        first_ident_index(acc.push(e), e.ident) == acc.len(),
    decreases acc.len(),
{
    if acc.len() > 0 {
        assert(acc[0].ident != e.ident);
        assert(acc.push(e)[0] == acc[0]);
        assert(acc.push(e).drop_first() =~= acc.drop_first().push(e));
        assert(!acc_has_ident(acc.drop_first(), e.ident)) by {
            if acc_has_ident(acc.drop_first(), e.ident) {
                let w = choose|w: int|
                    0 <= w < acc.drop_first().len() && acc.drop_first()[w].ident == e.ident;
                assert(acc[w + 1].ident == e.ident);
            }
        }
        lemma_first_index_after(acc.drop_first(), e);
    } else {
        assert(acc.push(e)[0] == e);
    }
}

/// What was once emitted stays emitted.
proof fn lemma_collect_mono(info: TypeInfoS, acc: Seq<EmitS>, x: Seq<char>)
    requires
        acc_has_ident(acc, x),
    ensures
        acc_has_ident(spec_collect(info, acc), x),
        first_ident_index(spec_collect(info, acc), x) == first_ident_index(acc, x),
{
    lemma_collect_prefix(info, acc);
    let out = spec_collect(info, acc);
    assert(out =~= acc + out.skip(acc.len() as int));
    lemma_first_index_append(acc, out.skip(acc.len() as int), x);
}

proof fn lemma_collect_list_mono(deps: Seq<TypeInfoS>, acc: Seq<EmitS>, x: Seq<char>)
    requires
        acc_has_ident(acc, x),
    ensures
        acc_has_ident(spec_collect_list(deps, acc), x),
        first_ident_index(spec_collect_list(deps, acc), x) == first_ident_index(acc, x),
{
    lemma_collect_list_prefix(deps, acc);
    let out = spec_collect_list(deps, acc);
    assert(out =~= acc + out.skip(acc.len() as int));
    lemma_first_index_append(acc, out.skip(acc.len() as int), x);
}

/// Everything defined in the subtree is emitted.
proof fn lemma_collect_complete(info: TypeInfoS, acc: Seq<EmitS>, y: Seq<char>)
    requires
        subtree_def_idents(info).contains(y),
    ensures
        acc_has_ident(spec_collect(info, acc), y),
    decreases info, 1int,
{
    let acc2 = spec_collect_list(info.dependencies, acc);
    let out = spec_collect(info, acc);
    if subtree_def_idents_list(info.dependencies).contains(y) {
        lemma_collect_list_complete(info.dependencies, acc, y);
        match info.definition {
            Some(d) => {
                if !acc_has_ident(acc2, d.ident) {
                    let j = choose|j: int| 0 <= j < acc2.len() && acc2[j].ident == y;
                    assert(out[j].ident == y);
                }
            },
            None => {},
        }
    } else {
        // y is this node's own definition name
        let idx = choose|idx: int|
            0 <= idx < subtree_def_idents(info).len() && subtree_def_idents(info)[idx] == y;
        assert(idx >= subtree_def_idents_list(info.dependencies).len()) by {
            if idx < subtree_def_idents_list(info.dependencies).len() {
                assert(subtree_def_idents_list(info.dependencies)[idx] == y);
            }
        }
        match info.definition {
            Some(d) => {
                assert(d.ident == y);
                if acc_has_ident(acc2, d.ident) {
                } else {
                    assert(out[out.len() - 1].ident == y);
                }
            },
            None => {
                assert(subtree_def_idents(info).len() == subtree_def_idents_list(
                    info.dependencies,
                ).len());
            },
        }
    }
}

proof fn lemma_collect_list_complete(deps: Seq<TypeInfoS>, acc: Seq<EmitS>, y: Seq<char>)
    requires
        subtree_def_idents_list(deps).contains(y),
    ensures
        acc_has_ident(spec_collect_list(deps, acc), y),
    decreases deps, 0int,
{
    let first = subtree_def_idents(deps[0]);
    let rest = subtree_def_idents_list(deps.drop_first());
    let idx = choose|idx: int|
        0 <= idx < subtree_def_idents_list(deps).len() && subtree_def_idents_list(deps)[idx] == y;
    if idx < first.len() {
        assert(first.contains(y)) by {
            assert(first[idx] == y);
        }
        lemma_collect_complete(deps[0], acc, y);
        lemma_collect_list_mono(deps.drop_first(), spec_collect(deps[0], acc), y);
    } else {
        assert(rest.contains(y)) by {
            assert(rest[idx - first.len()] == y);
        }
        lemma_collect_list_complete(deps.drop_first(), spec_collect(deps[0], acc), y);
    }
}

/// Only subtree names or already-emitted names come out.
proof fn lemma_collect_sound(info: TypeInfoS, acc: Seq<EmitS>, y: Seq<char>)
    requires
        acc_has_ident(spec_collect(info, acc), y),
    ensures
        acc_has_ident(acc, y) || subtree_def_idents(info).contains(y),
    decreases info, 1int,
{
    let acc2 = spec_collect_list(info.dependencies, acc);
    let out = spec_collect(info, acc);
    let deps_names = subtree_def_idents_list(info.dependencies);
    match info.definition {
        Some(d) => {
            if acc_has_ident(acc2, d.ident) {
                lemma_collect_list_sound(info.dependencies, acc, y);
                if deps_names.contains(y) {
                    assert(subtree_def_idents(info)[choose|idx: int|
                        0 <= idx < deps_names.len() && deps_names[idx] == y] == y);
                    assert(subtree_def_idents(info).contains(y));
                }
            } else {
                let j = choose|j: int| 0 <= j < out.len() && out[j].ident == y;
                if j < acc2.len() {
                    assert(acc_has_ident(acc2, y));
                    lemma_collect_list_sound(info.dependencies, acc, y);
                    if deps_names.contains(y) {
                        assert(subtree_def_idents(info)[choose|idx: int|
                            0 <= idx < deps_names.len() && deps_names[idx] == y] == y);
                        assert(subtree_def_idents(info).contains(y));
                    }
                } else {
                    assert(y == d.ident);
                    assert(subtree_def_idents(info)[deps_names.len() as int] == y);
                    assert(subtree_def_idents(info).contains(y));
                }
            }
        },
        None => {
            lemma_collect_list_sound(info.dependencies, acc, y);
            if deps_names.contains(y) {
                assert(subtree_def_idents(info) =~= deps_names);
                assert(subtree_def_idents(info).contains(y));
            }
        },
    }
}

proof fn lemma_collect_list_sound(deps: Seq<TypeInfoS>, acc: Seq<EmitS>, y: Seq<char>)
    requires
        acc_has_ident(spec_collect_list(deps, acc), y),
    ensures
        acc_has_ident(acc, y) || subtree_def_idents_list(deps).contains(y),
    decreases deps, 0int,
{
    if deps.len() > 0 {
        let first = subtree_def_idents(deps[0]);
        let rest = subtree_def_idents_list(deps.drop_first());
        lemma_collect_list_sound(deps.drop_first(), spec_collect(deps[0], acc), y);
        if acc_has_ident(spec_collect(deps[0], acc), y) && !acc_has_ident(acc, y) {
            lemma_collect_sound(deps[0], acc, y);
        }
        if first.contains(y) {
            let idx = choose|idx: int| 0 <= idx < first.len() && first[idx] == y;
            assert(subtree_def_idents_list(deps)[idx] == y);
        }
        if rest.contains(y) {
            let idx = choose|idx: int| 0 <= idx < rest.len() && rest[idx] == y;
            assert(subtree_def_idents_list(deps)[first.len() + idx] == y);
        }
    }
}

/// Every node of a schema tree: the node itself, then the nodes of its
/// dependency subtrees.
pub open spec fn nodes(info: TypeInfoS) -> Seq<TypeInfoS>
    decreases info, 1int,
{
    seq![info] + nodes_list(info.dependencies)
}

pub open spec fn nodes_list(deps: Seq<TypeInfoS>) -> Seq<TypeInfoS>
    decreases deps, 0int,
{
    if deps.len() == 0 {
        Seq::empty()
    } else {
        nodes(deps[0]) + nodes_list(deps.drop_first())
    }
}

proof fn lemma_nodes_list_elem(deps: Seq<TypeInfoS>, i: int, c: TypeInfoS)
    requires
        0 <= i < deps.len(),
        nodes(deps[i]).contains(c),
    ensures
        nodes_list(deps).contains(c),
    decreases deps, 0int,
{
    if i == 0 {
        let w = choose|w: int| 0 <= w < nodes(deps[0]).len() && nodes(deps[0])[w] == c;
        assert(nodes_list(deps)[w] == c);
    } else {
        lemma_nodes_list_elem(deps.drop_first(), i - 1, c);
        let w = choose|w: int|
            0 <= w < nodes_list(deps.drop_first()).len() && nodes_list(deps.drop_first())[w] == c;
        assert(nodes_list(deps)[nodes(deps[0]).len() + w] == c);
    }
}

/// Node membership runs down through dependencies.
proof fn lemma_nodes_trans(a: TypeInfoS, b: TypeInfoS, c: TypeInfoS)
    requires
        nodes(a).contains(b),
        nodes(b).contains(c),
    ensures
        nodes(a).contains(c),
    decreases a, 1int,
{
    if a == b {
    } else {
        let j = choose|j: int| 0 <= j < nodes(a).len() && nodes(a)[j] == b;
        if j == 0 {
        } else {
            assert(nodes_list(a.dependencies)[j - 1] == b);
            lemma_nodes_list_trans(a.dependencies, b, c);
            let w = choose|w: int|
                0 <= w < nodes_list(a.dependencies).len() && nodes_list(a.dependencies)[w] == c;
            assert(nodes(a)[w + 1] == c);
        }
    }
}

proof fn lemma_nodes_list_trans(deps: Seq<TypeInfoS>, b: TypeInfoS, c: TypeInfoS)
    requires
        nodes_list(deps).contains(b),
        nodes(b).contains(c),
    ensures
        nodes_list(deps).contains(c),
    decreases deps, 0int,
{
    let j = choose|j: int| 0 <= j < nodes_list(deps).len() && nodes_list(deps)[j] == b;
    if j < nodes(deps[0]).len() {
        assert(nodes(deps[0])[j] == b);
        assert(nodes(deps[0]).contains(b));
        lemma_nodes_trans(deps[0], b, c);
        lemma_nodes_list_elem(deps, 0, c);
    } else {
        assert(nodes_list(deps.drop_first())[j - nodes(deps[0]).len()] == b);
        assert(nodes_list(deps.drop_first()).contains(b));
        lemma_nodes_list_trans(deps.drop_first(), b, c);
        let w = choose|w: int|
            0 <= w < nodes_list(deps.drop_first()).len() && nodes_list(deps.drop_first())[w] == c;
        assert(nodes_list(deps)[nodes(deps[0]).len() + w] == c);
    }
}

/// A tree is coherently named when equal definition names only stand on
/// equal nodes: the dedup invariant that the registry provides.
pub open spec fn coherent(root: TypeInfoS) -> bool {
    forall|n1: TypeInfoS, n2: TypeInfoS|
        #![trigger nodes(root).contains(n1), nodes(root).contains(n2)]
        nodes(root).contains(n1) && nodes(root).contains(n2) && n1.definition is Some
            && n2.definition is Some && n1.definition->Some_0.ident == n2.definition->Some_0.ident
            ==> n1 == n2
}

/// The node that vouches for an emitted name: it carries that definition
/// name and all of its dependencies' definitions are already emitted, no
/// later than the name itself.
pub open spec fn node_witness(root: TypeInfoS, acc: Seq<EmitS>, x: Seq<char>, n: TypeInfoS) -> bool {
    &&& nodes(root).contains(n)
    &&& n.definition is Some
    &&& n.definition->Some_0.ident == x
    &&& forall|y: Seq<char>|
        subtree_def_idents_list(n.dependencies).contains(y) ==> acc_has_ident(acc, y)
            && first_ident_index(acc, y) <= first_ident_index(acc, x)
}

/// Every emitted name has a vouching node.
pub open spec fn emission_closed(acc: Seq<EmitS>, root: TypeInfoS) -> bool {
    forall|x: Seq<char>|
        #[trigger] acc_has_ident(acc, x) ==> exists|n: TypeInfoS| #[trigger] node_witness(
            root,
            acc,
            x,
            n,
        )
}

proof fn lemma_witness_extend(root: TypeInfoS, acc: Seq<EmitS>, more: Seq<EmitS>, x: Seq<char>, n: TypeInfoS)
    requires
        node_witness(root, acc, x, n),
        acc_has_ident(acc, x),
    ensures
        node_witness(root, acc + more, x, n),
{
    lemma_first_index_append(acc, more, x);
    assert forall|y: Seq<char>|
        subtree_def_idents_list(n.dependencies).contains(y) implies acc_has_ident(acc + more, y)
        && first_ident_index(acc + more, y) <= first_ident_index(acc + more, x) by {
        lemma_first_index_append(acc, more, y);
    }
}

/// Collection keeps the emitted list closed: each dependency's
/// definitions always land before the definitions that need them.
proof fn lemma_collect_closed(info: TypeInfoS, acc: Seq<EmitS>, root: TypeInfoS)
    requires
        nodes(root).contains(info),
        emission_closed(acc, root),
    ensures
        emission_closed(spec_collect(info, acc), root),
    decreases info, 1int,
{
    let acc2 = spec_collect_list(info.dependencies, acc);
    let out = spec_collect(info, acc);
    assert forall|i: int| 0 <= i < info.dependencies.len() implies nodes(root).contains(
        #[trigger] info.dependencies[i],
    ) by {
        assert(nodes(info.dependencies[i])[0] == info.dependencies[i]);
        assert(nodes(info.dependencies[i]).contains(info.dependencies[i]));
        lemma_nodes_list_elem(info.dependencies, i, info.dependencies[i]);
        let w = choose|w: int|
            0 <= w < nodes_list(info.dependencies).len() && nodes_list(info.dependencies)[w]
                == info.dependencies[i];
        assert(nodes(info)[w + 1] == info.dependencies[i]);
        assert(nodes(info).contains(info.dependencies[i]));
        lemma_nodes_trans(root, info, info.dependencies[i]);
    }
    lemma_collect_list_closed(info.dependencies, acc, root);
    match info.definition {
        Some(d) => {
            if acc_has_ident(acc2, d.ident) {
            } else {
                assert(out =~= acc2 + seq![def_emit(d)]);
                lemma_first_index_after(acc2, def_emit(d));
                assert forall|x: Seq<char>| #[trigger]
                    acc_has_ident(out, x) implies exists|n: TypeInfoS| #[trigger] node_witness(
                    root,
                    out,
                    x,
                    n,
                ) by {
                    if acc_has_ident(acc2, x) {
                        let n = choose|n: TypeInfoS| #[trigger] node_witness(root, acc2, x, n);
                        lemma_witness_extend(root, acc2, seq![def_emit(d)], x, n);
                        assert(node_witness(root, out, x, n));
                    } else {
                        // x must be the new name
                        let j = choose|j: int| 0 <= j < out.len() && out[j].ident == x;
                        assert(j == out.len() - 1) by {
                            if j < acc2.len() {
                                assert(acc2[j].ident == x);
                            }
                        }
                        assert(x == d.ident);
                        assert(node_witness(root, out, x, info)) by {
                            assert forall|y: Seq<char>|
                                subtree_def_idents_list(info.dependencies).contains(
                                    y,
                                ) implies acc_has_ident(out, y) && first_ident_index(out, y)
                                <= first_ident_index(out, x) by {
                                lemma_collect_list_complete(info.dependencies, acc, y);
                                lemma_first_index_props(acc2, y);
                                lemma_first_index_append(acc2, seq![def_emit(d)], y);
                            }
                        }
                    }
                }
            }
        },
        None => {},
    }
}

proof fn lemma_collect_list_closed(deps: Seq<TypeInfoS>, acc: Seq<EmitS>, root: TypeInfoS)
    requires
        forall|i: int| 0 <= i < deps.len() ==> nodes(root).contains(#[trigger] deps[i]),
        emission_closed(acc, root),
    ensures
        emission_closed(spec_collect_list(deps, acc), root),
    decreases deps, 0int,
{
    if deps.len() > 0 {
        lemma_collect_closed(deps[0], acc, root);
        assert forall|i: int| 0 <= i < deps.drop_first().len() implies nodes(root).contains(
            #[trigger] deps.drop_first()[i],
        ) by {
            assert(deps.drop_first()[i] == deps[i + 1]);
        }
        lemma_collect_list_closed(deps.drop_first(), spec_collect(deps[0], acc), root);
    }
}

/// Every node's definition name lies in the whole tree's definition
/// names.
proof fn lemma_def_in_subtree(root: TypeInfoS, n: TypeInfoS)
    requires
        nodes(root).contains(n),
        n.definition is Some,
    ensures
        subtree_def_idents(root).contains(n.definition->Some_0.ident),
    decreases root, 1int,
{
    let own = n.definition->Some_0.ident;
    if n == root {
        assert(subtree_def_idents(root)[subtree_def_idents_list(root.dependencies).len() as int]
            == own);
    } else {
        let j = choose|j: int| 0 <= j < nodes(root).len() && nodes(root)[j] == n;
        assert(nodes_list(root.dependencies)[j - 1] == n);
        assert(nodes_list(root.dependencies).contains(n));
        lemma_def_in_subtree_list(root.dependencies, n);
        let w = choose|w: int|
            0 <= w < subtree_def_idents_list(root.dependencies).len()
                && subtree_def_idents_list(root.dependencies)[w] == own;
        assert(subtree_def_idents(root)[w] == own);
    }
}

proof fn lemma_def_in_subtree_list(deps: Seq<TypeInfoS>, n: TypeInfoS)
    requires
        nodes_list(deps).contains(n),
        n.definition is Some,
    ensures
        subtree_def_idents_list(deps).contains(n.definition->Some_0.ident),
    decreases deps, 0int,
{
    let own = n.definition->Some_0.ident;
    let j = choose|j: int| 0 <= j < nodes_list(deps).len() && nodes_list(deps)[j] == n;
    if j < nodes(deps[0]).len() {
        assert(nodes(deps[0])[j] == n);
        assert(nodes(deps[0]).contains(n));
        lemma_def_in_subtree(deps[0], n);
        let w = choose|w: int|
            0 <= w < subtree_def_idents(deps[0]).len() && subtree_def_idents(deps[0])[w] == own;
        assert(subtree_def_idents_list(deps)[w] == own);
    } else {
        assert(nodes_list(deps.drop_first())[j - nodes(deps[0]).len()] == n);
        assert(nodes_list(deps.drop_first()).contains(n));
        lemma_def_in_subtree_list(deps.drop_first(), n);
        let w = choose|w: int|
            0 <= w < subtree_def_idents_list(deps.drop_first()).len()
                && subtree_def_idents_list(deps.drop_first())[w] == own;
        assert(subtree_def_idents_list(deps)[subtree_def_idents(deps[0]).len() + w] == own);
    }
}

/// Topological invariant of emission, for every node of a coherently
/// named tree: every definition name in a node's dependency subtrees is
/// emitted, and no later than the node's own definition.
pub proof fn lemma_emission_order_nested(root: TypeInfoS, n: TypeInfoS, y: Seq<char>)
    requires
        coherent(root),
        nodes(root).contains(n),
        n.definition is Some,
        subtree_def_idents_list(n.dependencies).contains(y),
    ensures
        ({
            let out = spec_collect(root, Seq::empty());
            let own = n.definition->Some_0.ident;
            &&& acc_has_ident(out, own)
            &&& acc_has_ident(out, y)
            &&& first_ident_index(out, y) <= first_ident_index(out, own)
        }),
{
    let out = spec_collect(root, Seq::empty());
    let own = n.definition->Some_0.ident;
    lemma_def_in_subtree(root, n);
    lemma_collect_complete(root, Seq::empty(), own);
    assert(emission_closed(Seq::<EmitS>::empty(), root)) by {
        assert forall|x: Seq<char>| #[trigger]
            acc_has_ident(Seq::<EmitS>::empty(), x) implies exists|w: TypeInfoS|
            #[trigger] node_witness(root, Seq::<EmitS>::empty(), x, w) by {
            assert(false);
        }
    }
    assert(nodes(root)[0] == root);
    assert(nodes(root).contains(root));
    lemma_collect_closed(root, Seq::empty(), root);
    assert(acc_has_ident(out, own));
    let w = choose|w: TypeInfoS| #[trigger] node_witness(root, out, own, w);
    assert(w == n);
}

/// Topological invariant of emission: starting from nothing, every name
/// defined in the dependency subtrees is emitted, and — as long as the
/// node's own name is not also a dependency's name, which grammars
/// without self-reference never produce — it is emitted strictly before
/// the node's own definition.
pub proof fn lemma_emission_order(info: TypeInfoS, y: Seq<char>)
    requires
        info.definition is Some,
        subtree_def_idents_list(info.dependencies).contains(y),
        !subtree_def_idents_list(info.dependencies).contains(info.definition->Some_0.ident),
    ensures
        ({
            let out = spec_collect(info, Seq::empty());
            let own = info.definition->Some_0.ident;
            &&& acc_has_ident(out, y)
            &&& acc_has_ident(out, own)
            &&& first_ident_index(out, y) < first_ident_index(out, own)
        }),
{
    let d = info.definition->Some_0;
    let acc2 = spec_collect_list(info.dependencies, Seq::empty());
    let out = spec_collect(info, Seq::empty());
    lemma_collect_list_complete(info.dependencies, Seq::empty(), y);
    assert(!acc_has_ident(acc2, d.ident)) by {
        if acc_has_ident(acc2, d.ident) {
            lemma_collect_list_sound(info.dependencies, Seq::empty(), d.ident);
            assert(!acc_has_ident(Seq::<EmitS>::empty(), d.ident));
        }
    }
    assert(out == acc2.push(def_emit(d)));
    assert(out =~= acc2 + seq![def_emit(d)]);
    lemma_first_index_append(acc2, seq![def_emit(d)], y);
    lemma_first_index_props(acc2, y);
    lemma_first_index_after(acc2, def_emit(d));
    assert(out[out.len() - 1].ident == d.ident);
}

} // verus!
