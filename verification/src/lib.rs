//! A grammar-to-schema compiler for CSS value definition syntax, with a
//! paired value-serialization engine.
//!
//! Grammar text is parsed into an AST of primitives, combinators and
//! multipliers; the AST is resolved into a schema of named type
//! declarations; a declarative attribute vocabulary drives deterministic
//! serialization of values back into canonical CSS text.

pub mod ast;
pub mod attrs;
pub mod css_value;
pub mod emit;
pub mod matcher;
pub mod parse;
pub mod registry;
pub mod resolve;
pub mod schema;
pub mod styles;
pub mod text;
pub mod values;
pub mod writer;

use vstd::prelude::*;
use crate::ast::{vds_view, Vds};
use crate::emit::{collect_definitions, emits_of, spec_collect, EmittedDef};
use crate::parse::{parse_vds, spec_parse_vds_text, SyntaxError};
use crate::resolve::{resolve_vds, spec_resolve_vds};
use crate::schema::{GrammarError, TypeInfo, TypeInfoS};

verus! {

/// Why a grammar failed to compile.
#[derive(Debug)]
pub enum CompileError {
    /// The text could not be parsed.
    Syntax(SyntaxError),
    /// The AST carries a semantic fault.
    Grammar(GrammarError),
}

/// Everything one grammar compiles to: its AST, the resolved schema node,
/// and the named declarations in emission order.
pub struct Compiled {
    pub ast: Vds,
    pub schema: TypeInfo,
    pub definitions: Vec<EmittedDef>,
}

/// Compiles one grammar definition file: parses it, resolves the AST to a
/// schema, and collects every named declaration, dependencies before
/// dependents and each name at most once. The call succeeds exactly when
/// the text parses and the AST resolves; each error names the stage.
pub fn compile_grammar(src: &str) -> (r: Result<Compiled, CompileError>)
    ensures
        (match r {
            Ok(c) => {
                &&& spec_parse_vds_text(src@) == Some(vds_view(c.ast))
                &&& spec_resolve_vds(c.ast) == Ok::<TypeInfoS, GrammarError>(c.schema@)
                &&& emits_of(c.definitions@) == spec_collect(c.schema@, Seq::empty())
            },
            Err(CompileError::Syntax(_)) => spec_parse_vds_text(src@) is None,
            Err(CompileError::Grammar(ge)) => exists|v: Vds|
                spec_parse_vds_text(src@) == Some(vds_view(v)) && #[trigger] spec_resolve_vds(v)
                    == Err::<TypeInfoS, GrammarError>(ge),
        }),
{
    let ast = match parse_vds(src) {
        Ok(v) => v,
        Err(e) => {
            return Err(CompileError::Syntax(e));
        },
    };
    let schema = match resolve_vds(&ast) {
        Ok(info) => info,
        Err(e) => {
            proof {
                assert(spec_parse_vds_text(src@) == Some(vds_view(ast)) && spec_resolve_vds(ast)
                    == Err::<TypeInfoS, GrammarError>(e));
            }
            return Err(CompileError::Grammar(e));
        },
    };
    let definitions = collect_definitions(&schema);
    Ok(Compiled { ast, schema, definitions })
}

} // verus!
