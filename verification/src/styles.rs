//! Style-sheet text assembly and the content key that identifies a
//! rendered sheet: pure computation; attaching sheets to a live document
//! is a consumer's business.

use vstd::prelude::*;
use std::collections::hash_map::DefaultHasher;
use std::hash::Hasher;
use vstd::std_specs::hash::DefaultHasherAdditionalSpecFns;
use crate::text::{dec_of, hex_of, u64_to_dec, u64_to_hex};

verus! {

/// The hash value the content key is built from.
pub open spec fn spec_key_of(bytes: Seq<u8>) -> u64 {
    DefaultHasher::spec_finish(Seq::<Seq<u8>>::empty().push(bytes))
}

/// A content key for a rendered style sheet.
#[derive(Clone, Copy, Debug, PartialEq, Eq, Structural)]
pub struct CSSKey(pub u64);

impl CSSKey {
    /// Hashes the rendered bytes into a key.
    pub fn new_hash(data: &[u8]) -> (r: CSSKey)
        ensures
            r.0 == spec_key_of(data@),
    {
        let mut h = DefaultHasher::new();
        h.write(data);
        let v = h.finish();
        proof {
            assert(Seq::<Seq<u8>>::empty().push(data@) =~= h@);
        }
        CSSKey(v)
    }

    /// The key as a lower-case hexadecimal element id.
    pub fn unique_id(self) -> (r: String)
        ensures
            r@ == hex_of(self.0 as nat),
    {
        u64_to_hex(self.0)
    }
}

/// The text of one declaration: `property:value`.
pub fn declaration_text(property: &str, value: &str) -> (r: String)
    ensures
        r@ == property@ + seq![':'] + value@,
{
    let mut out = String::new();
    out.append(property);
    out.push(':');
    out.append(value);
    proof {
        assert(out@ =~= property@ + seq![':'] + value@);
    }
    out
}

/// The body of a declaration block: every declaration followed by a
/// semicolon.
pub open spec fn spec_block_body(ds: Seq<Seq<char>>) -> Seq<char>
    decreases ds,
{
    if ds.len() == 0 {
        Seq::empty()
    } else {
        spec_block_body(ds.drop_last()) + ds.last() + seq![';']
    }
}

/// The text of a declaration block: the declarations, each closed by a
/// semicolon, inside braces.
pub fn block_text(declarations: &Vec<String>) -> (r: String)
    ensures
        r@ == seq!['{'] + spec_block_body(declarations@.map_values(|s: String| s@)) + seq!['}'],
{
    let mut out = String::new();
    out.push('{');
    let mut i: usize = 0;
    while i < declarations.len()
        invariant
            i <= declarations@.len(),
            out@ == seq!['{'] + spec_block_body(
                declarations@.take(i as int).map_values(|s: String| s@),
            ),
        decreases declarations@.len() - i,
    {
        out.append(declarations[i].as_str());
        out.push(';');
        proof {
            let whole = declarations@.take(i + 1).map_values(|s: String| s@);
            assert(whole.drop_last() =~= declarations@.take(i as int).map_values(
                |s: String| s@,
            ));
            assert(whole.last() == declarations@[i as int]@);
            assert(out@ =~= seq!['{'] + spec_block_body(whole));
        }
        i = i + 1;
    }
    out.push('}');
    proof {
        assert(declarations@.take(declarations@.len() as int) =~= declarations@);
    }
    out
}

/// The text of one rule set: the selector, then the block.
pub fn rule_set_text(selector: &str, block: &str) -> (r: String)
    ensures
        r@ == selector@ + block@,
{
    let mut out = String::new();
    out.append(selector);
    out.append(block);
    out
}

/// The text of a whole style sheet: every rule block in turn, each under
/// the class selector of its position.
pub open spec fn spec_styles_text(prefix: Seq<char>, blocks: Seq<Seq<char>>) -> Seq<char>
    decreases blocks,
{
    if blocks.len() == 0 {
        Seq::empty()
    } else {
        spec_styles_text(prefix, blocks.drop_last()) + seq!['.'] + prefix + seq!['-'] + dec_of(
            (blocks.len() - 1) as nat,
        ) + blocks.last()
    }
}

/// Renders a whole style sheet: the rule blocks in order, block `i`
/// under the selector `.prefix-i`.
pub fn styles_text(prefix: &str, blocks: &Vec<String>) -> (r: String)
    ensures
        r@ == spec_styles_text(prefix@, blocks@.map_values(|b: String| b@)),
{
    let ghost views = blocks@.map_values(|b: String| b@);
    let mut out = String::new();
    let mut i: usize = 0;
    proof {
        assert(views.take(0) =~= Seq::<Seq<char>>::empty());
    }
    while i < blocks.len()
        invariant
            i <= blocks@.len(),
            views == blocks@.map_values(|b: String| b@),
            out@ == spec_styles_text(prefix@, views.take(i as int)),
        decreases blocks@.len() - i,
    {
        let selector = class_selector(prefix, i as u64);
        out.append(selector.as_str());
        out.append(blocks[i].as_str());
        proof {
            assert(views.take(i + 1).drop_last() =~= views.take(i as int));
            assert(views.take(i + 1).last() == blocks@[i as int]@);
            assert(out@ =~= spec_styles_text(prefix@, views.take(i + 1)));
        }
        i = i + 1;
    }
    proof {
        assert(views.take(views.len() as int) =~= views);
    }
    out
}

/// The class selector a sheet's rule at a position renders under:
/// `.prefix-index`.
pub fn class_selector(prefix: &str, index: u64) -> (r: String)
    ensures
        r@ == seq!['.'] + prefix@ + seq!['-'] + dec_of(index as nat),
{
    let mut out = String::new();
    out.push('.');
    out.append(prefix);
    out.push('-');
    let digits = u64_to_dec(index);
    out.append(digits.as_str());
    proof {
        assert(out@ =~= seq!['.'] + prefix@ + seq!['-'] + dec_of(index as nat));
    }
    out
}

} // verus!
