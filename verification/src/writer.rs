//! The CSS writer: an append-only character buffer that serialization code
//! writes rendered value text into, and the traits that value types
//! implement to render themselves.

use vstd::prelude::*;

verus! {

/// Accumulates rendered CSS text.
pub struct CssWriter {
    buf: String,
}

impl CssWriter {
    /// The characters written so far.
    pub closed spec fn contents(&self) -> Seq<char> {
        self.buf@
    }

    /// A writer with an empty buffer.
    pub fn new() -> (w: Self)
        ensures
            w.contents() == Seq::<char>::empty(),
    {
        CssWriter { buf: String::new() }
    }

    /// Appends one character.
    pub fn write_char(&mut self, c: char)
        ensures
            final(self).contents() == old(self).contents().push(c),
    {
        self.buf.push(c);
    }

    /// Appends a string.
    pub fn write_str(&mut self, s: &str)
        ensures
            final(self).contents() == old(self).contents() + s@,
    {
        self.buf.append(s);
    }

    /// Hands the written text out.
    pub fn into_string(self) -> (r: String)
        ensures
            r@ == self.contents(),
    {
        self.buf
    }
}

/// A value that renders to a canonical CSS text.
pub trait WriteValue {
    /// The canonical rendering of this value.
    spec fn rendered(&self) -> Seq<char>;

    /// Appends the canonical rendering to the writer.
    fn write_value(&self, f: &mut CssWriter)
        ensures
            final(f).contents() == old(f).contents() + self.rendered(),
    ;
}

/// A declaration: a property name together with a renderable value.
pub trait WriteDeclaration: WriteValue {
    /// The property name this declaration renders under.
    spec fn property(&self) -> Seq<char>;

    /// Appends the property name to the writer.
    fn write_property(&self, f: &mut CssWriter)
        ensures
            final(f).contents() == old(f).contents() + self.property(),
    ;
}

/// Appends `property:value` to the writer.
pub fn write_declaration<T: WriteDeclaration>(value: &T, f: &mut CssWriter)
    ensures
        final(f).contents() == old(f).contents() + value.property() + seq![':'] + value.rendered(),
{
    value.write_property(f);
    f.write_char(':');
    value.write_value(f);
    proof {
        assert(f.contents() =~= old(f).contents() + value.property() + seq![':']
            + value.rendered());
    }
}

/// A value that may or may not produce any text; reports whether it wrote.
pub trait MaybeWriteValue {
    /// The rendering, when there is one.
    spec fn maybe_rendered(&self) -> Option<Seq<char>>;

    /// Appends the rendering when there is one, and says whether it did.
    fn maybe_write_value(&self, f: &mut CssWriter) -> (wrote: bool)
        ensures
            match self.maybe_rendered() {
                Some(text) => wrote && final(f).contents() == old(f).contents() + text,
                None => !wrote && final(f).contents() == old(f).contents(),
            },
    ;
}

impl<T: WriteValue> MaybeWriteValue for Option<T> {
    open spec fn maybe_rendered(&self) -> Option<Seq<char>> {
        match self {
            Some(v) => Some(v.rendered()),
            None => None,
        }
    }

    fn maybe_write_value(&self, f: &mut CssWriter) -> (wrote: bool) {
        match self {
            Some(v) => {
                v.write_value(f);
                true
            },
            None => false,
        }
    }
}

/// Renders a value to a string.
pub fn render_to_string<T: WriteValue>(value: &T) -> (r: String)
    ensures
        r@ == value.rendered(),
{
    let mut f = CssWriter::new();
    value.write_value(&mut f);
    proof {
        assert(f.contents() =~= value.rendered());
    }
    f.into_string()
}

/// Renders a value to its UTF-8 bytes.
pub fn render_to_vec<T: WriteValue>(value: &T) -> (r: Vec<u8>)
    ensures
        r@ == vstd::utf8::encode_utf8(value.rendered()),
{
    let s = render_to_string(value);
    vstd::slice::slice_to_vec(s.as_str().as_bytes())
}

} // verus!
