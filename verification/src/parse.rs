//! The grammar lexer and parser: turns grammar source text into the AST
//! of primitives, combinators and multipliers.
//!
//! Binding, loosest to tightest: `|`, then `||`, then `&&`, then plain
//! juxtaposition, then a primitive with its multiplier. Each combinator
//! level parses the next-tighter level and consumes its separator until
//! the separator is no longer present; a single element at any level is
//! passed through unchanged.

use vstd::prelude::*;
use crate::ast::{
    ao_view, au_view, cv_view, def_view, enum_view, ident_segs, lemma_aos_view_push,
    lemma_aus_view_push, lemma_from_enumeration_view, lemma_oms_view_push,
    lemma_singles_view_push, lemma_vdefs_view_push, line_view, om_view, oms_view, pdef_view, prim_view,
    s_from_enumeration, single_view, singles_view, aos_view, aus_view, vdef_view,
    vdefs_view, vds_view, AllOrdered, AllOrderedS,
    AllUnordered, AllUnorderedS, ClosedRange, CombinedValue, CombinedValueS, CssIdent, Definition,
    DefinitionS, Enumeration, EnumerationS, GenericDefinitionLine, GenericDefinitionLineS,
    Multiplier, MultiplierType, OneOrMoreUnordered, OneOrMoreUnorderedS, PrimitiveValue,
    PrimitiveValueS, PrimitiveValueType, PropertyDefinition, PropertyDefinitionS, RangeMultiplier,
    Reference, ReferenceS, SingleValue, SingleValueS, ValueDefinition, ValueDefinitionS, Vds, VdsS,
};
use crate::text::str_to_chars;

verus! {

/// One token of grammar source text.
pub enum Token {
    /// A hyphen-joined identifier.
    Ident(String),
    /// A quoted literal.
    Str(String),
    /// A non-negative number.
    Int(u64),
    LAngle,
    RAngle,
    LBracket,
    RBracket,
    LBrace,
    RBrace,
    Star,
    Plus,
    Question,
    Hash,
    Bang,
    Comma,
    Eq,
    Semi,
    Pipe,
    PipePipe,
    AmpAmp,
}

/// The model of a token.
#[verifier::ext_equal]
pub enum TokenS {
    Ident(Seq<char>),
    Str(Seq<char>),
    Int(u64),
    LAngle,
    RAngle,
    LBracket,
    RBracket,
    LBrace,
    RBrace,
    Star,
    Plus,
    Question,
    Hash,
    Bang,
    Comma,
    Eq,
    Semi,
    Pipe,
    PipePipe,
    AmpAmp,
}

impl View for Token {
    type V = TokenS;

    open spec fn view(&self) -> TokenS {
        match self {
            Token::Ident(s) => TokenS::Ident(s@),
            Token::Str(s) => TokenS::Str(s@),
            Token::Int(n) => TokenS::Int(*n),
            Token::LAngle => TokenS::LAngle,
            Token::RAngle => TokenS::RAngle,
            Token::LBracket => TokenS::LBracket,
            Token::RBracket => TokenS::RBracket,
            Token::LBrace => TokenS::LBrace,
            Token::RBrace => TokenS::RBrace,
            Token::Star => TokenS::Star,
            Token::Plus => TokenS::Plus,
            Token::Question => TokenS::Question,
            Token::Hash => TokenS::Hash,
            Token::Bang => TokenS::Bang,
            Token::Comma => TokenS::Comma,
            Token::Eq => TokenS::Eq,
            Token::Semi => TokenS::Semi,
            Token::Pipe => TokenS::Pipe,
            Token::PipePipe => TokenS::PipePipe,
            Token::AmpAmp => TokenS::AmpAmp,
        }
    }
}

/// The models of a token list.
pub open spec fn tokens_of(toks: Seq<Token>) -> Seq<TokenS> {
    toks.map_values(|t: Token| t@)
}

/// A syntax error: the expected construct and the offending location.
#[derive(Debug)]
pub struct SyntaxError {
    /// Where the failure happened: a character position while lexing, a
    /// token position while parsing.
    pub pos: usize,
    /// What was expected there.
    pub expected: String,
}

impl SyntaxError {
    fn at(pos: usize, expected: &str) -> (r: SyntaxError)
        ensures
            r.pos == pos,
            r.expected@ == expected@,
    {
        SyntaxError { pos, expected: expected.to_owned() }
    }
}

/// Whether the character can start an identifier segment.
pub open spec fn spec_ident_start(c: char) -> bool {
    ('a' <= c && c <= 'z') || ('A' <= c && c <= 'Z') || c == '_'
}

/// Whether the character can continue an identifier segment.
pub open spec fn spec_ident_char(c: char) -> bool {
    spec_ident_start(c) || ('0' <= c && c <= '9')
}

/// Whether the character is a decimal digit.
pub open spec fn spec_digit(c: char) -> bool {
    '0' <= c && c <= '9'
}

/// Whether the character is blank.
pub open spec fn spec_space(c: char) -> bool {
    c == ' ' || c == '\t' || c == '\n' || c == '\r'
}

fn is_ident_start(c: char) -> (r: bool)
    ensures
        r == spec_ident_start(c),
{
    ('a' <= c && c <= 'z') || ('A' <= c && c <= 'Z') || c == '_'
}

fn is_ident_char(c: char) -> (r: bool)
    ensures
        r == spec_ident_char(c),
{
    is_ident_start(c) || ('0' <= c && c <= '9')
}

fn is_digit(c: char) -> (r: bool)
    ensures
        r == spec_digit(c),
{
    '0' <= c && c <= '9'
}

fn is_space(c: char) -> (r: bool)
    ensures
        r == spec_space(c),
{
    c == ' ' || c == '\t' || c == '\n' || c == '\r'
}

/// The numeric value of a digit character.
pub open spec fn spec_digit_value(c: char) -> int {
    c as int - '0' as int
}

fn digit_value(c: char) -> (r: u64)
    requires
        spec_digit(c),
    ensures
        r == spec_digit_value(c),
        r < 10,
{
    (c as u32 - '0' as u32) as u64
}

/// The end of the run of identifier characters starting at `i`.
pub open spec fn spec_seg_end(s: Seq<char>, i: int) -> int
    decreases s.len() - i,
{
    if 0 <= i < s.len() && spec_ident_char(s[i]) {
        spec_seg_end(s, i + 1)
    } else {
        i
    }
}

/// Where an identifier starting at `i` ends: each segment is a run of
/// identifier characters, a hyphen continues with another segment, and a
/// hyphen not followed by a segment start fails.
pub open spec fn spec_ident_scan(s: Seq<char>, i: int) -> Option<int>
    decreases s.len() - i,
{
    if !(0 <= i < s.len() && spec_ident_start(s[i])) {
        None
    } else {
        let e = spec_seg_end(s, i + 1);
        if e < s.len() && s[e] == '-' {
            if i < e + 1 <= s.len() {
                spec_ident_scan(s, e + 1)
            } else {
                None
            }
        } else {
            Some(e)
        }
    }
}

/// The end of the run of digits starting at `i`.
pub open spec fn spec_digits_end(s: Seq<char>, i: int) -> int
    decreases s.len() - i,
{
    if 0 <= i < s.len() && spec_digit(s[i]) {
        spec_digits_end(s, i + 1)
    } else {
        i
    }
}

/// The position of the closing quote at or after `i`, if any.
pub open spec fn spec_str_end(s: Seq<char>, i: int) -> Option<int>
    decreases s.len() - i,
{
    if i < 0 || i >= s.len() {
        None
    } else if s[i] == '"' {
        Some(i)
    } else {
        spec_str_end(s, i + 1)
    }
}

/// The number a run of decimal digits denotes.
pub open spec fn spec_dec_value(s: Seq<char>) -> nat
    decreases s.len(),
{
    if s.len() == 0 {
        0
    } else {
        (spec_dec_value(s.drop_last()) * 10 + (s.last() as int - '0' as int)) as nat
    }
}

/// The token starting at a non-blank position, and the position after it;
/// nothing where no token starts there — an unfinished construct, a stray
/// character, or a number beyond the machine word.
pub open spec fn spec_next_token(s: Seq<char>, i: int) -> Option<(TokenS, int)> {
    if !(0 <= i < s.len()) {
        None
    } else if spec_ident_start(s[i]) {
        match spec_ident_scan(s, i) {
            Some(e) => Some((TokenS::Ident(s.subrange(i, e)), e)),
            None => None,
        }
    } else if spec_digit(s[i]) {
        let e = spec_digits_end(s, i);
        if spec_dec_value(s.subrange(i, e)) > u64::MAX {
            None
        } else {
            Some((TokenS::Int(spec_dec_value(s.subrange(i, e)) as u64), e))
        }
    } else if s[i] == '"' {
        match spec_str_end(s, i + 1) {
            Some(e) => Some((TokenS::Str(s.subrange(i + 1, e)), e + 1)),
            None => None,
        }
    } else if s[i] == '&' {
        if i + 1 < s.len() && s[i + 1] == '&' {
            Some((TokenS::AmpAmp, i + 2))
        } else {
            None
        }
    } else if s[i] == '|' {
        if i + 1 < s.len() && s[i + 1] == '|' {
            Some((TokenS::PipePipe, i + 2))
        } else {
            Some((TokenS::Pipe, i + 1))
        }
    } else if s[i] == '<' {
        Some((TokenS::LAngle, i + 1))
    } else if s[i] == '>' {
        Some((TokenS::RAngle, i + 1))
    } else if s[i] == '[' {
        Some((TokenS::LBracket, i + 1))
    } else if s[i] == ']' {
        Some((TokenS::RBracket, i + 1))
    } else if s[i] == '{' {
        Some((TokenS::LBrace, i + 1))
    } else if s[i] == '}' {
        Some((TokenS::RBrace, i + 1))
    } else if s[i] == '*' {
        Some((TokenS::Star, i + 1))
    } else if s[i] == '+' {
        Some((TokenS::Plus, i + 1))
    } else if s[i] == '?' {
        Some((TokenS::Question, i + 1))
    } else if s[i] == '#' {
        Some((TokenS::Hash, i + 1))
    } else if s[i] == '!' {
        Some((TokenS::Bang, i + 1))
    } else if s[i] == ',' {
        Some((TokenS::Comma, i + 1))
    } else if s[i] == '=' {
        Some((TokenS::Eq, i + 1))
    } else if s[i] == ';' {
        Some((TokenS::Semi, i + 1))
    } else {
        None
    }
}

/// The token list the text from `i` on denotes: blanks are skipped, each
/// token is scanned in turn, and the list exists exactly when every
/// non-blank position in turn starts a token.
pub open spec fn spec_lex_from(s: Seq<char>, i: int) -> Option<Seq<TokenS>>
    decreases s.len() - i,
{
    if !(0 <= i < s.len()) {
        Some(Seq::empty())
    } else if spec_space(s[i]) {
        spec_lex_from(s, i + 1)
    } else {
        match spec_next_token(s, i) {
            Some((t, j)) => if i < j <= s.len() {
                match spec_lex_from(s, j) {
                    Some(rest) => Some(seq![t] + rest),
                    None => None,
                }
            } else {
                None
            },
            None => None,
        }
    }
}

/// Scans one identifier: hyphen-joined segments, each starting with a
/// letter or underscore. The token carries exactly the consumed text,
/// and the scan is maximal: what follows continues no identifier.
fn lex_ident(chars: &Vec<char>, start: usize) -> (r: Result<(Token, usize), SyntaxError>)
    requires
        start < chars@.len(),
        spec_ident_start(chars@[start as int]),
    ensures
        (match r {
            Ok((t, j)) => start < j <= chars@.len() && spec_ident_scan(chars@, start as int)
                == Some(j as int) && t@ == TokenS::Ident(chars@.subrange(start as int, j as int)),
            Err(e) => spec_ident_scan(chars@, start as int) is None && e.pos <= chars@.len(),
        }),
{
    let mut out = String::new();
    let mut i = start;
    proof {
        assert(chars@.subrange(start as int, start as int) =~= Seq::<char>::empty());
    }
    loop
        invariant
            start < chars@.len(),
            start <= i <= chars@.len(),
            out@ == chars@.subrange(start as int, i as int),
            spec_ident_scan(chars@, start as int) == spec_ident_scan(chars@, i as int),
        decreases chars@.len() - i,
    {
        // one segment: its first character, then the rest
        if i >= chars.len() || !is_ident_start(chars[i]) {
            return Err(SyntaxError::at(i, "identifier segment"));
        }
        let ghost seg_start = i as int;
        out.push(chars[i]);
        i = i + 1;
        proof {
            assert(chars@.subrange(start as int, i as int) =~= chars@.subrange(
                start as int,
                i - 1,
            ).push(chars@[i - 1]));
        }
        while i < chars.len() && is_ident_char(chars[i])
            invariant
                start < i <= chars@.len(),
                seg_start < i,
                out@ == chars@.subrange(start as int, i as int),
                spec_seg_end(chars@, seg_start + 1) == spec_seg_end(chars@, i as int),
            decreases chars@.len() - i,
        {
            out.push(chars[i]);
            i = i + 1;
            proof {
                assert(chars@.subrange(start as int, i as int) =~= chars@.subrange(
                    start as int,
                    i - 1,
                ).push(chars@[i - 1]));
            }
        }
        proof {
            assert(spec_seg_end(chars@, i as int) == i as int);
            assert(spec_seg_end(chars@, seg_start + 1) == i as int);
        }
        if i < chars.len() && chars[i] == '-' {
            out.push('-');
            i = i + 1;
            proof {
                assert(chars@.subrange(start as int, i as int) =~= chars@.subrange(
                    start as int,
                    i - 1,
                ).push(chars@[i - 1]));
                assert(spec_ident_scan(chars@, seg_start) == spec_ident_scan(chars@, i as int));
            }
        } else {
            proof {
                assert(spec_ident_scan(chars@, seg_start) == Some(i as int));
            }
            return Ok((Token::Ident(out), i));
        }
    }
}

/// The digit run from `i` reaches its end, and holds only digits.
proof fn lemma_digits_end_props(s: Seq<char>, i: int)
    requires
        0 <= i <= s.len(),
    ensures
        i <= spec_digits_end(s, i) <= s.len(),
        forall|m: int| i <= m < spec_digits_end(s, i) ==> spec_digit(s[m]),
    decreases s.len() - i,
{
    if 0 <= i < s.len() && spec_digit(s[i]) {
        lemma_digits_end_props(s, i + 1);
    }
}

/// Reading more digits never shrinks the value.
proof fn lemma_dec_value_mono(s: Seq<char>, i0: int, j: int, k: int)
    requires
        0 <= i0 <= j <= k <= s.len(),
        forall|m: int| j <= m < k ==> spec_digit(s[m]),
    ensures
        spec_dec_value(s.subrange(i0, k)) >= spec_dec_value(s.subrange(i0, j)),
    decreases k - j,
{
    if k > j {
        lemma_dec_value_mono(s, i0, j, k - 1);
        assert(s.subrange(i0, k).drop_last() =~= s.subrange(i0, k - 1));
        assert(s.subrange(i0, k).last() == s[k - 1]);
        assert(spec_digit(s[k - 1]));
    }
}

/// Scans a number: the token carries the value of the maximal digit run;
/// a number that does not fit the machine word is rejected.
fn lex_int(chars: &Vec<char>, start: usize) -> (r: Result<(Token, usize), SyntaxError>)
    requires
        start < chars@.len(),
        spec_digit(chars@[start as int]),
    ensures
        (match r {
            Ok((t, j)) => start < j <= chars@.len() && j == spec_digits_end(
                chars@,
                start as int,
            ) && spec_dec_value(chars@.subrange(start as int, j as int)) <= u64::MAX && t@
                == TokenS::Int(
                spec_dec_value(chars@.subrange(start as int, j as int)) as u64,
            ),
            Err(e) => spec_dec_value(
                chars@.subrange(start as int, spec_digits_end(chars@, start as int)),
            ) > u64::MAX && e.pos <= chars@.len(),
        }),
{
    let mut value: u64 = 0;
    let mut i = start;
    proof {
        assert(chars@.subrange(start as int, start as int) =~= Seq::<char>::empty());
        lemma_digits_end_props(chars@, start as int);
    }
    while i < chars.len() && is_digit(chars[i])
        invariant
            start <= i <= chars@.len(),
            value == spec_dec_value(chars@.subrange(start as int, i as int)),
            spec_digits_end(chars@, start as int) == spec_digits_end(chars@, i as int),
        decreases chars@.len() - i,
    {
        let d = digit_value(chars[i]);
        if value > (u64::MAX - d) / 10 {
            proof {
                let whole = chars@;
                let e = spec_digits_end(whole, start as int);
                assert(whole.subrange(start as int, i + 1).drop_last() =~= whole.subrange(
                    start as int,
                    i as int,
                ));
                assert(whole.subrange(start as int, i + 1).last() == whole[i as int]);
                assert(spec_dec_value(whole.subrange(start as int, i + 1)) > u64::MAX);
                lemma_digits_end_props(whole, i as int);
                assert(e == spec_digits_end(whole, i + 1));
                lemma_digits_end_props(whole, i + 1);
                lemma_dec_value_mono(whole, start as int, i + 1, e);
            }
            return Err(SyntaxError::at(i, "a smaller number"));
        }
        value = value * 10 + d;
        i = i + 1;
        proof {
            assert(chars@.subrange(start as int, i as int).drop_last() =~= chars@.subrange(
                start as int,
                i - 1,
            ));
            assert(chars@.subrange(start as int, i as int).last() == chars@[i - 1]);
        }
    }
    proof {
        assert(spec_digits_end(chars@, i as int) == i as int);
        if i == start {
            assert(spec_digit(chars@[start as int]));
            assert(false);
        }
    }
    Ok((Token::Int(value), i))
}

/// Scans a quoted literal; no escapes are recognized inside it. The
/// token carries exactly the text between the quotes.
fn lex_str(chars: &Vec<char>, start: usize) -> (r: Result<(Token, usize), SyntaxError>)
    requires
        start < chars@.len(),
        chars@[start as int] == '"',
    ensures
        (match r {
            Ok((t, j)) => start < j <= chars@.len() && spec_str_end(chars@, start + 1) == Some(
                j - 1,
            ) && t@ == TokenS::Str(chars@.subrange(start + 1, j - 1)),
            Err(e) => spec_str_end(chars@, start + 1) is None && e.pos <= chars@.len(),
        }),
{
    let n = chars.len();
    let mut out = String::new();
    let mut i = start + 1;
    proof {
        assert(chars@.subrange(start + 1, start + 1) =~= Seq::<char>::empty());
    }
    while i < n && chars[i] != '"'
        invariant
            n == chars@.len(),
            start < i <= chars@.len(),
            out@ == chars@.subrange(start + 1, i as int),
            spec_str_end(chars@, start + 1) == spec_str_end(chars@, i as int),
        decreases chars@.len() - i,
    {
        out.push(chars[i]);
        i = i + 1;
        proof {
            assert(chars@.subrange(start + 1, i as int) =~= chars@.subrange(start + 1, i - 1).push(
                chars@[i - 1],
            ));
        }
    }
    if i >= n {
        proof {
            assert(spec_str_end(chars@, i as int) is None);
        }
        return Err(SyntaxError::at(i, "closing double quote"));
    }
    proof {
        assert(spec_str_end(chars@, i as int) == Some(i as int));
    }
    Ok((Token::Str(out), i + 1))
}

/// One lexing step: consuming the token at `i` keeps the accumulated
/// token list in step with the whole text's token list.
proof fn lemma_lex_step(s: Seq<char>, i: int, pre: Seq<TokenS>, t: TokenS, j: int)
    requires
        0 <= i < s.len(),
        !spec_space(s[i]),
        spec_next_token(s, i) == Some((t, j)),
        i < j <= s.len(),
        (match spec_lex_from(s, i) {
            Some(rest) => spec_lex_from(s, 0) == Some(pre + rest),
            None => spec_lex_from(s, 0) is None,
        }),
    ensures
        (match spec_lex_from(s, j) {
            Some(rest) => spec_lex_from(s, 0) == Some(pre.push(t) + rest),
            None => spec_lex_from(s, 0) is None,
        }),
{
    match spec_lex_from(s, j) {
        Some(rest) => {
            assert(spec_lex_from(s, i) == Some(seq![t] + rest));
            assert(pre + (seq![t] + rest) =~= pre.push(t) + rest);
        },
        None => {
            assert(spec_lex_from(s, i) is None);
        },
    }
}

/// Turns grammar source text into tokens: the token list is fixed by the
/// characters, and an error comes exactly where no token starts.
pub fn lex(src: &str) -> (r: Result<Vec<Token>, SyntaxError>)
    ensures
        (match r {
            Ok(toks) => spec_lex_from(src@, 0) == Some(tokens_of(toks@)),
            Err(e) => spec_lex_from(src@, 0) is None && e.pos <= src@.len(),
        }),
{
    let chars = str_to_chars(src);
    let mut toks: Vec<Token> = Vec::new();
    let mut i: usize = 0;
    proof {
        assert(tokens_of(toks@) + spec_lex_from(chars@, 0)->Some_0 =~= spec_lex_from(
            chars@,
            0,
        )->Some_0);
    }
    while i < chars.len()
        invariant
            i <= chars@.len(),
            chars@ == src@,
            (match spec_lex_from(chars@, i as int) {
                Some(rest) => spec_lex_from(chars@, 0) == Some(tokens_of(toks@) + rest),
                None => spec_lex_from(chars@, 0) is None,
            }),
        decreases chars@.len() - i,
    {
        let ghost pre = tokens_of(toks@);
        let c = chars[i];
        if is_space(c) {
            proof {
                assert(spec_lex_from(chars@, i as int) == spec_lex_from(chars@, i + 1));
            }
            i = i + 1;
        } else if is_ident_start(c) {
            match lex_ident(&chars, i) {
                Ok((t, j)) => {
                    proof {
                        assert(spec_next_token(chars@, i as int) == Some((t@, j as int)));
                        lemma_lex_step(chars@, i as int, pre, t@, j as int);
                    }
                    toks.push(t);
                    i = j;
                    proof {
                        assert(tokens_of(toks@) =~= pre.push(toks@.last()@));
                    }
                },
                Err(e) => {
                    return Err(e);
                },
            }
        } else if is_digit(c) {
            match lex_int(&chars, i) {
                Ok((t, j)) => {
                    proof {
                        assert(spec_next_token(chars@, i as int) == Some((t@, j as int)));
                        lemma_lex_step(chars@, i as int, pre, t@, j as int);
                    }
                    toks.push(t);
                    i = j;
                    proof {
                        assert(tokens_of(toks@) =~= pre.push(toks@.last()@));
                    }
                },
                Err(e) => {
                    return Err(e);
                },
            }
        } else if c == '"' {
            match lex_str(&chars, i) {
                Ok((t, j)) => {
                    proof {
                        assert(spec_next_token(chars@, i as int) == Some((t@, j as int)));
                        lemma_lex_step(chars@, i as int, pre, t@, j as int);
                    }
                    toks.push(t);
                    i = j;
                    proof {
                        assert(tokens_of(toks@) =~= pre.push(toks@.last()@));
                    }
                },
                Err(e) => {
                    return Err(e);
                },
            }
        } else if c == '&' {
            if i + 1 < chars.len() && chars[i + 1] == '&' {
                proof {
                    assert(spec_next_token(chars@, i as int) == Some((TokenS::AmpAmp, i + 2)));
                    lemma_lex_step(chars@, i as int, pre, TokenS::AmpAmp, i + 2);
                }
                toks.push(Token::AmpAmp);
                i = i + 2;
                proof {
                    assert(tokens_of(toks@) =~= pre.push(TokenS::AmpAmp));
                }
            } else {
                return Err(SyntaxError::at(i, "a second ampersand"));
            }
        } else if c == '|' {
            if i + 1 < chars.len() && chars[i + 1] == '|' {
                proof {
                    assert(spec_next_token(chars@, i as int) == Some((TokenS::PipePipe, i + 2)));
                    lemma_lex_step(chars@, i as int, pre, TokenS::PipePipe, i + 2);
                }
                toks.push(Token::PipePipe);
                i = i + 2;
                proof {
                    assert(tokens_of(toks@) =~= pre.push(TokenS::PipePipe));
                }
            } else {
                proof {
                    assert(spec_next_token(chars@, i as int) == Some((TokenS::Pipe, i + 1)));
                    lemma_lex_step(chars@, i as int, pre, TokenS::Pipe, i + 1);
                }
                toks.push(Token::Pipe);
                i = i + 1;
                proof {
                    assert(tokens_of(toks@) =~= pre.push(TokenS::Pipe));
                }
            }
        } else {
            let t = match c {
                '<' => Some(Token::LAngle),
                '>' => Some(Token::RAngle),
                '[' => Some(Token::LBracket),
                ']' => Some(Token::RBracket),
                '{' => Some(Token::LBrace),
                '}' => Some(Token::RBrace),
                '*' => Some(Token::Star),
                '+' => Some(Token::Plus),
                '?' => Some(Token::Question),
                '#' => Some(Token::Hash),
                '!' => Some(Token::Bang),
                ',' => Some(Token::Comma),
                '=' => Some(Token::Eq),
                ';' => Some(Token::Semi),
                _ => None,
            };
            match t {
                Some(t) => {
                    proof {
                        assert(spec_next_token(chars@, i as int) == Some((t@, i + 1)));
                        lemma_lex_step(chars@, i as int, pre, t@, i + 1);
                    }
                    toks.push(t);
                    i = i + 1;
                    proof {
                        assert(tokens_of(toks@) =~= pre.push(toks@.last()@));
                    }
                },
                None => {
                    proof {
                        assert(spec_next_token(chars@, i as int) is None);
                    }
                    return Err(SyntaxError::at(i, "a grammar token"));
                },
            }
        }
    }
    proof {
        assert(spec_lex_from(chars@, i as int) == Some(Seq::<TokenS>::empty()));
        assert(tokens_of(toks@) + Seq::<TokenS>::empty() =~= tokens_of(toks@));
    }
    Ok(toks)
}

/// Splitting a hyphen-joined text into its segments, front to back.
pub open spec fn spec_split_from(
    s: Seq<char>,
    i: int,
    cur: Seq<char>,
    acc: Seq<Seq<char>>,
) -> Seq<Seq<char>>
    decreases s.len() - i,
{
    if !(0 <= i < s.len()) {
        acc.push(cur)
    } else if s[i] == '-' {
        spec_split_from(s, i + 1, Seq::empty(), acc.push(cur))
    } else {
        spec_split_from(s, i + 1, cur.push(s[i]), acc)
    }
}

/// The segments a hyphen-joined identifier text denotes.
pub open spec fn spec_ident_of_text(s: Seq<char>) -> Seq<Seq<char>> {
    spec_split_from(s, 0, Seq::empty(), Seq::empty())
}

/// Splits a hyphen-joined identifier text back into its segments;
/// joining the segments again gives the text back unchanged.
pub fn ident_from_text(text: &String) -> (r: CssIdent)
    ensures
        r.text() == text@,
        r.segments@.len() >= 1,
        ident_segs(r) == spec_ident_of_text(text@),
{
    let chars = str_to_chars(text.as_str());
    let mut segments: Vec<String> = Vec::new();
    let mut seg = String::new();
    let mut i: usize = 0;
    proof {
        assert(crate::css_value::str_views(segments@) =~= Seq::<Seq<char>>::empty());
    }
    while i < chars.len()
        invariant
            i <= chars@.len(),
            chars@ == text@,
            (if segments@.len() == 0 {
                seg@ == text@.take(i as int)
            } else {
                crate::text::join_with(crate::css_value::str_views(segments@), seq!['-'])
                    + seq!['-'] + seg@ == text@.take(i as int)
            }),
            spec_ident_of_text(text@) == spec_split_from(
                text@,
                i as int,
                seg@,
                crate::css_value::str_views(segments@),
            ),
        decreases chars@.len() - i,
    {
        let ghost old_segments = segments@;
        let ghost old_seg = seg@;
        if chars[i] == '-' {
            segments.push(seg);
            seg = String::new();
            proof {
                assert(segments@ =~= old_segments.push(segments@.last()));
                assert(crate::css_value::str_views(segments@) =~= crate::css_value::str_views(
                    old_segments,
                ).push(old_seg));
                crate::text::lemma_join_with_push(
                    crate::css_value::str_views(old_segments),
                    seq!['-'],
                    old_seg,
                );
                assert(text@.take(i + 1) =~= text@.take(i as int).push(text@[i as int]));
            }
        } else {
            seg.push(chars[i]);
            proof {
                assert(text@.take(i + 1) =~= text@.take(i as int).push(text@[i as int]));
            }
        }
        i = i + 1;
    }
    let ghost old_segments = segments@;
    let ghost old_seg = seg@;
    segments.push(seg);
    proof {
        assert(segments@ =~= old_segments.push(segments@.last()));
        assert(crate::css_value::str_views(segments@) =~= crate::css_value::str_views(
            old_segments,
        ).push(old_seg));
        crate::text::lemma_join_with_push(
            crate::css_value::str_views(old_segments),
            seq!['-'],
            old_seg,
        );
        assert(text@.take(text@.len() as int) =~= text@);
        assert(spec_ident_of_text(text@) == crate::css_value::str_views(old_segments).push(
            old_seg,
        ));
    }
    CssIdent::new(segments)
}

/// What the primitive lookahead decides at a position: a `<` opens a
/// property reference when a quoted name follows, else a reference; a
/// bracket opens a group; an identifier is a keyword; a quoted token a
/// literal.
pub open spec fn spec_peek_primitive(ts: Seq<TokenS>, pos: int) -> Option<PrimitiveValueType> {
    if pos < 0 || pos >= ts.len() {
        None
    } else {
        match ts[pos] {
            TokenS::LAngle => {
                if pos + 1 < ts.len() && ts[pos + 1] is Str {
                    Some(PrimitiveValueType::PropertyReference)
                } else {
                    Some(PrimitiveValueType::Reference)
                }
            },
            TokenS::LBracket => Some(PrimitiveValueType::Group),
            TokenS::Ident(_) => Some(PrimitiveValueType::Keyword),
            TokenS::Str(_) => Some(PrimitiveValueType::Literal),
            _ => None,
        }
    }
}

/// What the multiplier lookahead decides at a position.
pub open spec fn spec_peek_multiplier(ts: Seq<TokenS>, pos: int) -> Option<MultiplierType> {
    if pos < 0 || pos >= ts.len() {
        None
    } else {
        match ts[pos] {
            TokenS::LBrace => Some(MultiplierType::Range),
            TokenS::Star => Some(MultiplierType::ZeroOrMore),
            TokenS::Plus => Some(MultiplierType::OneOrMore),
            TokenS::Question => Some(MultiplierType::Optional),
            TokenS::Hash => Some(MultiplierType::OneOrMoreComma),
            TokenS::Bang => Some(MultiplierType::Required),
            _ => None,
        }
    }
}

/// What kind of primitive starts at the position, decided by lookahead
/// alone: nothing is consumed, so a failed lookahead lets an enclosing
/// combinator stop cleanly.
pub fn peek_primitive(toks: &Vec<Token>, pos: usize) -> (r: Option<PrimitiveValueType>)
    ensures
        (match r {
            Some(k) => spec_peek_primitive(tokens_of(toks@), pos as int) == Some(k),
            None => spec_peek_primitive(tokens_of(toks@), pos as int) is None,
        }),
{
    if pos >= toks.len() {
        return None;
    }
    match &toks[pos] {
        Token::LAngle => {
            if pos + 1 < toks.len() {
                match &toks[pos + 1] {
                    Token::Str(_) => Some(PrimitiveValueType::PropertyReference),
                    _ => Some(PrimitiveValueType::Reference),
                }
            } else {
                Some(PrimitiveValueType::Reference)
            }
        },
        Token::LBracket => Some(PrimitiveValueType::Group),
        Token::Ident(_) => Some(PrimitiveValueType::Keyword),
        Token::Str(_) => Some(PrimitiveValueType::Literal),
        _ => None,
    }
}

/// What kind of multiplier starts at the position, decided by lookahead.
pub fn peek_multiplier(toks: &Vec<Token>, pos: usize) -> (r: Option<MultiplierType>)
    ensures
        (match r {
            Some(k) => spec_peek_multiplier(tokens_of(toks@), pos as int) == Some(k),
            None => spec_peek_multiplier(tokens_of(toks@), pos as int) is None,
        }),
{
    if pos >= toks.len() {
        return None;
    }
    match &toks[pos] {
        Token::LBrace => Some(MultiplierType::Range),
        Token::Star => Some(MultiplierType::ZeroOrMore),
        Token::Plus => Some(MultiplierType::OneOrMore),
        Token::Question => Some(MultiplierType::Optional),
        Token::Hash => Some(MultiplierType::OneOrMoreComma),
        Token::Bang => Some(MultiplierType::Required),
        _ => None,
    }
}

/// Parsing one closed range bound: a number, or `inf` for no bound.
pub open spec fn spec_parse_closed_bound(ts: Seq<TokenS>, i: int) -> Option<(Option<u64>, int)> {
    if !(0 <= i < ts.len()) {
        None
    } else {
        match ts[i] {
            TokenS::Int(n) => Some((Some(n), i + 1)),
            TokenS::Ident(s) => if s == "inf"@ {
                Some((None, i + 1))
            } else {
                None
            },
            _ => None,
        }
    }
}

/// Parsing a closed range `[lo,hi]`.
pub open spec fn spec_parse_closed_range(ts: Seq<TokenS>, i: int) -> Option<(ClosedRange, int)> {
    if !(0 <= i < ts.len() && ts[i] is LBracket) {
        None
    } else {
        match spec_parse_closed_bound(ts, i + 1) {
            None => None,
            Some((min, j)) => if j < ts.len() && ts[j] is Comma {
                match spec_parse_closed_bound(ts, j + 1) {
                    None => None,
                    Some((max, k)) => if k < ts.len() && ts[k] is RBracket {
                        Some((ClosedRange { min, max }, k + 1))
                    } else {
                        None
                    },
                }
            } else {
                None
            },
        }
    }
}

/// Parsing a repetition range `{m}`, `{m,}` or `{m,n}`: the bounds, the
/// comma and the brace fix every field.
pub open spec fn spec_parse_range_multiplier(ts: Seq<TokenS>, i: int) -> Option<(
    RangeMultiplier,
    int,
)> {
    if !(0 <= i < ts.len() && ts[i] is LBrace) {
        None
    } else if !(i + 1 < ts.len() && ts[i + 1] is Int) {
        None
    } else {
        let mn = ts[i + 1]->Int_0;
        if i + 2 < ts.len() && ts[i + 2] is Comma {
            if i + 3 < ts.len() && ts[i + 3] is Int {
                if i + 4 < ts.len() && ts[i + 4] is RBrace {
                    Some((RangeMultiplier { min: mn, comma: true, max: Some(ts[i + 3]->Int_0) }, i
                        + 5))
                } else {
                    None
                }
            } else if i + 3 < ts.len() && ts[i + 3] is RBrace {
                Some((RangeMultiplier { min: mn, comma: true, max: None }, i + 4))
            } else {
                None
            }
        } else if i + 2 < ts.len() && ts[i + 2] is RBrace {
            Some((RangeMultiplier { min: mn, comma: false, max: None }, i + 3))
        } else {
            None
        }
    }
}

/// Parsing one multiplier.
pub open spec fn spec_parse_multiplier(ts: Seq<TokenS>, i: int) -> Option<(Multiplier, int)> {
    if !(0 <= i < ts.len()) {
        None
    } else {
        match ts[i] {
            TokenS::Star => Some((Multiplier::ZeroOrMore, i + 1)),
            TokenS::Plus => Some((Multiplier::OneOrMore, i + 1)),
            TokenS::Question => Some((Multiplier::Optional, i + 1)),
            TokenS::Hash => Some((Multiplier::OneOrMoreComma, i + 1)),
            TokenS::Bang => Some((Multiplier::Required, i + 1)),
            TokenS::LBrace => match spec_parse_range_multiplier(ts, i) {
                Some((rm, j)) => Some((Multiplier::Range(rm), j)),
                None => None,
            },
            _ => None,
        }
    }
}

/// Parsing one primitive.
pub open spec fn spec_parse_primitive(ts: Seq<TokenS>, i: int) -> Option<(PrimitiveValueS, int)>
    decreases ts.len() - i, 0int,
{
    if !(0 <= i < ts.len()) {
        None
    } else {
        match ts[i] {
            TokenS::Ident(s) => Some((PrimitiveValueS::Keyword(spec_ident_of_text(s)), i + 1)),
            TokenS::Str(s) => Some((PrimitiveValueS::Literal(s), i + 1)),
            TokenS::LAngle => {
                if i + 1 < ts.len() && ts[i + 1] is Str {
                    if i + 2 < ts.len() && ts[i + 2] is RAngle {
                        Some((PrimitiveValueS::PropertyReference(ts[i + 1]->Str_0), i + 3))
                    } else {
                        None
                    }
                } else if i + 1 < ts.len() && ts[i + 1] is Ident {
                    let name = spec_ident_of_text(ts[i + 1]->Ident_0);
                    if i + 2 < ts.len() && ts[i + 2] is LBracket {
                        match spec_parse_closed_range(ts, i + 2) {
                            Some((cr, j)) => if j < ts.len() && ts[j] is RAngle {
                                Some(
                                    (
                                        PrimitiveValueS::Reference(
                                            ReferenceS { ident: name, range: Some(cr) },
                                        ),
                                        j + 1,
                                    ),
                                )
                            } else {
                                None
                            },
                            None => None,
                        }
                    } else if i + 2 < ts.len() && ts[i + 2] is RAngle {
                        Some(
                            (
                                PrimitiveValueS::Reference(ReferenceS { ident: name, range: None }),
                                i + 3,
                            ),
                        )
                    } else {
                        None
                    }
                } else {
                    None
                }
            },
            TokenS::LBracket => {
                match spec_parse_combined(ts, i + 1) {
                    Some((cv, j)) => if j < ts.len() && ts[j] is RBracket {
                        Some((PrimitiveValueS::Group(Box::new(cv)), j + 1))
                    } else {
                        None
                    },
                    None => None,
                }
            },
            _ => None,
        }
    }
}

/// The tail of a single value after its primitive and multiplier: an
/// optional trailing comma.
pub open spec fn spec_after_multiplier(
    pv: PrimitiveValueS,
    m: Option<Multiplier>,
    ts: Seq<TokenS>,
    k: int,
) -> Option<(SingleValueS, int)> {
    if 0 <= k < ts.len() && ts[k] is Comma {
        Some((SingleValueS { value: pv, multiplier: m, comma: true }, k + 1))
    } else {
        Some((SingleValueS { value: pv, multiplier: m, comma: false }, k))
    }
}

/// Parsing a primitive with its optional multiplier and optional comma.
pub open spec fn spec_parse_single(ts: Seq<TokenS>, i: int) -> Option<(SingleValueS, int)>
    decreases ts.len() - i, 1int,
{
    match spec_parse_primitive(ts, i) {
        None => None,
        Some((pv, j)) => if spec_peek_multiplier(ts, j) is Some {
            match spec_parse_multiplier(ts, j) {
                None => None,
                Some((m, k)) => spec_after_multiplier(pv, Some(m), ts, k),
            }
        } else {
            spec_after_multiplier(pv, None, ts, j)
        },
    }
}

/// Parsing a juxtaposed sequence: single values while the lookahead still
/// sees a primitive head token.
pub open spec fn spec_ao_components(ts: Seq<TokenS>, i: int) -> Option<(Seq<SingleValueS>, int)>
    decreases ts.len() - i, 2int,
{
    match spec_parse_single(ts, i) {
        None => None,
        Some((sv, j)) => if spec_peek_primitive(ts, j) is Some {
            if i < j {
                match spec_ao_components(ts, j) {
                    Some((rest, e)) => Some((seq![sv] + rest, e)),
                    None => None,
                }
            } else {
                None
            }
        } else {
            Some((seq![sv], j))
        },
    }
}

pub open spec fn spec_parse_all_ordered(ts: Seq<TokenS>, i: int) -> Option<(AllOrderedS, int)>
    decreases ts.len() - i, 3int,
{
    match spec_ao_components(ts, i) {
        Some((cs, j)) => Some((AllOrderedS { components: cs }, j)),
        None => None,
    }
}

/// Parsing `&&`-joined components.
pub open spec fn spec_au_components(ts: Seq<TokenS>, i: int) -> Option<(Seq<AllOrderedS>, int)>
    decreases ts.len() - i, 4int,
{
    match spec_parse_all_ordered(ts, i) {
        None => None,
        Some((ao, j)) => if j < ts.len() && ts[j] is AmpAmp {
            if i < j + 1 {
                match spec_au_components(ts, j + 1) {
                    Some((rest, e)) => Some((seq![ao] + rest, e)),
                    None => None,
                }
            } else {
                None
            }
        } else {
            Some((seq![ao], j))
        },
    }
}

pub open spec fn spec_parse_all_unordered(ts: Seq<TokenS>, i: int) -> Option<(AllUnorderedS, int)>
    decreases ts.len() - i, 5int,
{
    match spec_au_components(ts, i) {
        Some((cs, j)) => Some((AllUnorderedS { components: cs }, j)),
        None => None,
    }
}

/// Parsing `||`-joined components.
pub open spec fn spec_om_components(ts: Seq<TokenS>, i: int) -> Option<(Seq<AllUnorderedS>, int)>
    decreases ts.len() - i, 6int,
{
    match spec_parse_all_unordered(ts, i) {
        None => None,
        Some((au, j)) => if j < ts.len() && ts[j] is PipePipe {
            if i < j + 1 {
                match spec_om_components(ts, j + 1) {
                    Some((rest, e)) => Some((seq![au] + rest, e)),
                    None => None,
                }
            } else {
                None
            }
        } else {
            Some((seq![au], j))
        },
    }
}

pub open spec fn spec_parse_one_or_more(ts: Seq<TokenS>, i: int) -> Option<(
    OneOrMoreUnorderedS,
    int,
)>
    decreases ts.len() - i, 7int,
{
    match spec_om_components(ts, i) {
        Some((cs, j)) => Some((OneOrMoreUnorderedS { components: cs }, j)),
        None => None,
    }
}

/// Parsing `|`-joined alternatives.
pub open spec fn spec_enum_components(ts: Seq<TokenS>, i: int) -> Option<(
    Seq<OneOrMoreUnorderedS>,
    int,
)>
    decreases ts.len() - i, 8int,
{
    match spec_parse_one_or_more(ts, i) {
        None => None,
        Some((om, j)) => if j < ts.len() && ts[j] is Pipe {
            if i < j + 1 {
                match spec_enum_components(ts, j + 1) {
                    Some((rest, e)) => Some((seq![om] + rest, e)),
                    None => None,
                }
            } else {
                None
            }
        } else {
            Some((seq![om], j))
        },
    }
}

pub open spec fn spec_parse_enumeration(ts: Seq<TokenS>, i: int) -> Option<(EnumerationS, int)>
    decreases ts.len() - i, 9int,
{
    match spec_enum_components(ts, i) {
        Some((cs, j)) => Some((EnumerationS { components: cs }, j)),
        None => None,
    }
}

/// Parsing a full combinator expression, collapsed through every level.
pub open spec fn spec_parse_combined(ts: Seq<TokenS>, i: int) -> Option<(CombinedValueS, int)>
    decreases ts.len() - i, 10int,
{
    match spec_parse_enumeration(ts, i) {
        Some((e, j)) => Some((s_from_enumeration(e), j)),
        None => None,
    }
}

/// Parsing the `= <expr> ;` tail of a rule line.
pub open spec fn spec_parse_line_tail(ts: Seq<TokenS>, i: int) -> Option<(
    GenericDefinitionLineS,
    int,
)> {
    if !(0 <= i < ts.len() && ts[i] is Eq) {
        None
    } else {
        match spec_parse_combined(ts, i + 1) {
            None => None,
            Some((cv, j)) => if j < ts.len() && ts[j] is Semi {
                Some((GenericDefinitionLineS { value: cv }, j + 1))
            } else {
                None
            },
        }
    }
}

/// Parsing one `<name> = ...;` rule.
pub open spec fn spec_parse_value_definition(ts: Seq<TokenS>, i: int) -> Option<(
    ValueDefinitionS,
    int,
)> {
    if !(0 <= i < ts.len() && ts[i] is LAngle) {
        None
    } else if !(i + 1 < ts.len() && ts[i + 1] is Ident) {
        None
    } else {
        let name = spec_ident_of_text(ts[i + 1]->Ident_0);
        if i + 2 < ts.len() && ts[i + 2] is LBracket {
            match spec_parse_closed_range(ts, i + 2) {
                None => None,
                Some((cr, j)) => if j < ts.len() && ts[j] is RAngle {
                    match spec_parse_line_tail(ts, j + 1) {
                        None => None,
                        Some((line, e)) => Some(
                            (
                                ValueDefinitionS {
                                    name: ReferenceS { ident: name, range: Some(cr) },
                                    line,
                                },
                                e,
                            ),
                        ),
                    }
                } else {
                    None
                },
            }
        } else if i + 2 < ts.len() && ts[i + 2] is RAngle {
            match spec_parse_line_tail(ts, i + 3) {
                None => None,
                Some((line, e)) => Some(
                    (ValueDefinitionS { name: ReferenceS { ident: name, range: None }, line }, e),
                ),
            }
        } else {
            None
        }
    }
}

/// Parsing one `<"name"> = ...;` rule.
pub open spec fn spec_parse_property_definition(ts: Seq<TokenS>, i: int) -> Option<(
    PropertyDefinitionS,
    int,
)> {
    if !(0 <= i < ts.len() && ts[i] is LAngle) {
        None
    } else if !(i + 1 < ts.len() && ts[i + 1] is Str) {
        None
    } else if !(i + 2 < ts.len() && ts[i + 2] is RAngle) {
        None
    } else {
        match spec_parse_line_tail(ts, i + 3) {
            None => None,
            Some((line, e)) => Some(
                (PropertyDefinitionS { name: ts[i + 1]->Str_0, line }, e),
            ),
        }
    }
}

/// Parsing the definition a grammar file starts with.
pub open spec fn spec_parse_definition(ts: Seq<TokenS>, i: int) -> Option<(DefinitionS, int)> {
    if 0 <= i && i + 1 < ts.len() && ts[i + 1] is Str {
        match spec_parse_property_definition(ts, i) {
            Some((pd, j)) => Some((DefinitionS::Property(pd), j)),
            None => None,
        }
    } else {
        match spec_parse_value_definition(ts, i) {
            Some((vd, j)) => Some((DefinitionS::Value(vd), j)),
            None => None,
        }
    }
}

/// Parsing the trailing value rules of a grammar file, until the input
/// ends.
pub open spec fn spec_vds_values(ts: Seq<TokenS>, i: int) -> Option<Seq<ValueDefinitionS>>
    decreases ts.len() - i,
{
    if !(0 <= i < ts.len()) {
        Some(Seq::empty())
    } else {
        match spec_parse_value_definition(ts, i) {
            None => None,
            Some((vd, j)) => if i < j <= ts.len() {
                match spec_vds_values(ts, j) {
                    Some(rest) => Some(seq![vd] + rest),
                    None => None,
                }
            } else {
                None
            },
        }
    }
}

/// Parsing a whole grammar file from its tokens.
pub open spec fn spec_parse_vds_tokens(ts: Seq<TokenS>) -> Option<VdsS> {
    match spec_parse_definition(ts, 0) {
        None => None,
        Some((d, j)) => if 0 <= j <= ts.len() {
            match spec_vds_values(ts, j) {
                Some(vals) => Some(VdsS { definition: d, values: vals }),
                None => None,
            }
        } else {
            None
        },
    }
}

/// Parsing a whole grammar file from its text: lexing, then parsing.
pub open spec fn spec_parse_vds_text(s: Seq<char>) -> Option<VdsS> {
    match spec_lex_from(s, 0) {
        None => None,
        Some(ts) => spec_parse_vds_tokens(ts),
    }
}

/// Parses one closed range bound: a number, or `inf` for no bound.
fn parse_closed_bound(toks: &Vec<Token>, pos: usize) -> (r: Result<
    (Option<u64>, usize),
    SyntaxError,
>)
    requires
        pos <= toks@.len(),
    ensures
        (match r {
            Ok((b, j)) => pos < j <= toks@.len() && spec_parse_closed_bound(
                tokens_of(toks@),
                pos as int,
            ) == Some((b, j as int)),
            Err(e) => spec_parse_closed_bound(tokens_of(toks@), pos as int) is None && e.pos
                <= toks@.len(),
        }),
{
    if pos >= toks.len() {
        return Err(SyntaxError::at(pos, "number or `inf`"));
    }
    match &toks[pos] {
        Token::Int(n) => Ok((Some(*n), pos + 1)),
        Token::Ident(s) => {
            if crate::text::str_eq(s.as_str(), "inf") {
                Ok((None, pos + 1))
            } else {
                Err(SyntaxError::at(pos, "number or `inf`"))
            }
        },
        _ => Err(SyntaxError::at(pos, "number or `inf`")),
    }
}

/// Parses a closed range `[lo,hi]` after a reference name.
fn parse_closed_range(toks: &Vec<Token>, pos: usize) -> (r: Result<
    (ClosedRange, usize),
    SyntaxError,
>)
    requires
        pos <= toks@.len(),
    ensures
        (match r {
            Ok((cr, j)) => pos < j <= toks@.len() && spec_parse_closed_range(
                tokens_of(toks@),
                pos as int,
            ) == Some((cr, j as int)),
            Err(e) => spec_parse_closed_range(tokens_of(toks@), pos as int) is None && e.pos
                <= toks@.len(),
        }),
{
    let mut i = pos;
    if i >= toks.len() || !matches!(&toks[i], Token::LBracket) {
        return Err(SyntaxError::at(i, "opening bracket"));
    }
    i = i + 1;
    let (min, j) = match parse_closed_bound(toks, i) {
        Ok(v) => v,
        Err(e) => {
            return Err(e);
        },
    };
    i = j;
    if i >= toks.len() || !matches!(&toks[i], Token::Comma) {
        return Err(SyntaxError::at(i, "comma"));
    }
    i = i + 1;
    let (max, j) = match parse_closed_bound(toks, i) {
        Ok(v) => v,
        Err(e) => {
            return Err(e);
        },
    };
    i = j;
    if i >= toks.len() || !matches!(&toks[i], Token::RBracket) {
        return Err(SyntaxError::at(i, "closing bracket of range"));
    }
    Ok((ClosedRange { min, max }, i + 1))
}

/// Parses a repetition range `{m}`, `{m,}` or `{m,n}`: the tokens fix
/// every field, so an exact range is told apart from an open one.
fn parse_range_multiplier(toks: &Vec<Token>, pos: usize) -> (r: Result<
    (RangeMultiplier, usize),
    SyntaxError,
>)
    requires
        pos <= toks@.len(),
    ensures
        (match r {
            Ok((rm, j)) => pos < j <= toks@.len() && spec_parse_range_multiplier(
                tokens_of(toks@),
                pos as int,
            ) == Some((rm, j as int)),
            Err(e) => spec_parse_range_multiplier(tokens_of(toks@), pos as int) is None && e.pos
                <= toks@.len(),
        }),
{
    let mut i = pos;
    if i >= toks.len() || !matches!(&toks[i], Token::LBrace) {
        return Err(SyntaxError::at(i, "opening brace"));
    }
    i = i + 1;
    let min: u64 = if i < toks.len() {
        match &toks[i] {
            Token::Int(n) => *n,
            _ => {
                return Err(SyntaxError::at(i, "lower bound"));
            },
        }
    } else {
        return Err(SyntaxError::at(i, "lower bound"));
    };
    i = i + 1;
    let mut comma = false;
    let mut max: Option<u64> = None;
    if i < toks.len() && matches!(&toks[i], Token::Comma) {
        comma = true;
        i = i + 1;
        if i < toks.len() {
            match &toks[i] {
                Token::Int(n) => {
                    max = Some(*n);
                    i = i + 1;
                },
                _ => (),
            }
        }
    }
    if i >= toks.len() || !matches!(&toks[i], Token::RBrace) {
        return Err(SyntaxError::at(i, "closing brace of range"));
    }
    Ok((RangeMultiplier { min, comma, max }, i + 1))
}

/// Parses one multiplier: each punctuation token maps to its kind, and a
/// brace opens a repetition range whose lower bound is the number after
/// it.
pub fn parse_multiplier(toks: &Vec<Token>, pos: usize) -> (r: Result<
    (Multiplier, usize),
    SyntaxError,
>)
    requires
        pos <= toks@.len(),
    ensures
        (match r {
            Ok((m, j)) => pos < j <= toks@.len() && spec_parse_multiplier(
                tokens_of(toks@),
                pos as int,
            ) == Some((m, j as int)),
            Err(e) => spec_parse_multiplier(tokens_of(toks@), pos as int) is None && e.pos
                <= toks@.len(),
        }),
{
    if pos >= toks.len() {
        return Err(SyntaxError::at(pos, "multiplier"));
    }
    match &toks[pos] {
        Token::Star => Ok((Multiplier::ZeroOrMore, pos + 1)),
        Token::Plus => Ok((Multiplier::OneOrMore, pos + 1)),
        Token::Question => Ok((Multiplier::Optional, pos + 1)),
        Token::Hash => Ok((Multiplier::OneOrMoreComma, pos + 1)),
        Token::Bang => Ok((Multiplier::Required, pos + 1)),
        Token::LBrace => {
            match parse_range_multiplier(toks, pos) {
                Ok((rm, j)) => Ok((Multiplier::Range(rm), j)),
                Err(e) => Err(e),
            }
        },
        _ => Err(SyntaxError::at(pos, "multiplier")),
    }
}

/// Parses one primitive. What comes back mirrors the tokens: a keyword
/// or literal carries the one token's text, a reference the name between
/// its angle brackets, a group its bracketed sub-grammar.
#[verifier::rlimit(80)]
pub fn parse_primitive(toks: &Vec<Token>, pos: usize) -> (r: Result<
    (PrimitiveValue, usize),
    SyntaxError,
>)
    requires
        pos <= toks@.len(),
    ensures
        (match r {
            Ok((pv, j)) => pos < j <= toks@.len() && spec_parse_primitive(
                tokens_of(toks@),
                pos as int,
            ) == Some((prim_view(pv), j as int)),
            Err(e) => spec_parse_primitive(tokens_of(toks@), pos as int) is None && e.pos
                <= toks@.len(),
        }),
    decreases toks@.len() - pos, 0int,
{
    if pos >= toks.len() {
        return Err(SyntaxError::at(pos, "primitive value"));
    }
    match &toks[pos] {
        Token::Ident(s) => {
            let kw = ident_from_text(s);
            proof {
                assert(spec_parse_primitive(tokens_of(toks@), pos as int) == Some((
                    prim_view(PrimitiveValue::Keyword(kw)),
                    pos + 1,
                )));
            }
            Ok((PrimitiveValue::Keyword(kw), pos + 1))
        },
        Token::Str(s) => Ok((PrimitiveValue::Literal(s.clone()), pos + 1)),
        Token::LAngle => {
            if pos + 1 < toks.len() && matches!(&toks[pos + 1], Token::Str(_)) {
                let name: String = match &toks[pos + 1] {
                    Token::Str(s) => s.clone(),
                    _ => String::new(),
                };
                if pos + 2 < toks.len() && matches!(&toks[pos + 2], Token::RAngle) {
                    Ok((PrimitiveValue::PropertyReference(name), pos + 3))
                } else {
                    Err(SyntaxError::at(pos + 2, "closing angle bracket"))
                }
            } else {
                let mut i = pos + 1;
                let ident: CssIdent = if i < toks.len() {
                    match &toks[i] {
                        Token::Ident(s) => ident_from_text(s),
                        _ => {
                            return Err(SyntaxError::at(i, "reference name"));
                        },
                    }
                } else {
                    return Err(SyntaxError::at(i, "reference name"));
                };
                i = i + 1;
                let mut range: Option<ClosedRange> = None;
                if i < toks.len() && matches!(&toks[i], Token::LBracket) {
                    match parse_closed_range(toks, i) {
                        Ok((cr, j)) => {
                            range = Some(cr);
                            i = j;
                        },
                        Err(e) => {
                            return Err(e);
                        },
                    }
                }
                if i >= toks.len() || !matches!(&toks[i], Token::RAngle) {
                    return Err(SyntaxError::at(i, "closing angle bracket"));
                }
                proof {
                    assert(spec_parse_primitive(tokens_of(toks@), pos as int) == Some((
                        prim_view(PrimitiveValue::Reference(Reference { ident, range })),
                        i + 1,
                    )));
                }
                Ok((PrimitiveValue::Reference(Reference { ident, range }), i + 1))
            }
        },
        Token::LBracket => {
            let (value, j) = match parse_combined(toks, pos + 1) {
                Ok(v) => v,
                Err(e) => {
                    return Err(e);
                },
            };
            if j >= toks.len() || !matches!(&toks[j], Token::RBracket) {
                return Err(SyntaxError::at(j, "closing bracket of group"));
            }
            proof {
                assert(spec_parse_primitive(tokens_of(toks@), pos as int) == Some((
                    prim_view(PrimitiveValue::Group(Box::new(value))),
                    j + 1,
                )));
            }
            Ok((PrimitiveValue::Group(Box::new(value)), j + 1))
        },
        _ => Err(SyntaxError::at(pos, "primitive value")),
    }
}

/// Parses a primitive with its optional multiplier and optional comma.
pub fn parse_single(toks: &Vec<Token>, pos: usize) -> (r: Result<(SingleValue, usize), SyntaxError>)
    requires
        pos <= toks@.len(),
    ensures
        (match r {
            Ok((sv, j)) => pos < j <= toks@.len() && spec_parse_single(
                tokens_of(toks@),
                pos as int,
            ) == Some((single_view(sv), j as int)),
            Err(e) => spec_parse_single(tokens_of(toks@), pos as int) is None && e.pos
                <= toks@.len(),
        }),
    decreases toks@.len() - pos, 1int,
{
    let (value, mut i) = match parse_primitive(toks, pos) {
        Ok(v) => v,
        Err(e) => {
            return Err(e);
        },
    };
    let mut multiplier: Option<Multiplier> = None;
    if peek_multiplier(toks, i).is_some() {
        match parse_multiplier(toks, i) {
            Ok((m, j)) => {
                multiplier = Some(m);
                i = j;
            },
            Err(e) => {
                return Err(e);
            },
        }
    }
    let ghost before_comma = i as int;
    let mut comma = false;
    if i < toks.len() && matches!(&toks[i], Token::Comma) {
        comma = true;
        i = i + 1;
    }
    proof {
        assert(spec_parse_single(tokens_of(toks@), pos as int) == spec_after_multiplier(
            prim_view(value),
            multiplier,
            tokens_of(toks@),
            before_comma,
        ));
        assert(spec_after_multiplier(prim_view(value), multiplier, tokens_of(toks@), before_comma)
            == Some((single_view(SingleValue { value, multiplier, comma }), i as int)));
    }
    Ok((SingleValue { value, multiplier, comma }, i))
}

/// Parses a juxtaposed sequence: one single value, then more while the
/// lookahead still sees a primitive head token.
#[verifier::rlimit(100)]
#[verifier::spinoff_prover]
pub fn parse_all_ordered(toks: &Vec<Token>, pos: usize) -> (r: Result<
    (AllOrdered, usize),
    SyntaxError,
>)
    requires
        pos <= toks@.len(),
    ensures
        (match r {
            Ok((ao, j)) => pos < j <= toks@.len() && ao.components@.len() >= 1
                && spec_parse_all_ordered(tokens_of(toks@), pos as int) == Some((
                ao_view(ao),
                j as int,
            )),
            Err(e) => spec_parse_all_ordered(tokens_of(toks@), pos as int) is None && e.pos
                <= toks@.len(),
        }),
    decreases toks@.len() - pos, 2int,
{
    let ghost ts = tokens_of(toks@);
    let (first, mut i) = match parse_single(toks, pos) {
        Ok(v) => v,
        Err(e) => {
            return Err(e);
        },
    };
    let mut components: Vec<SingleValue> = Vec::new();
    components.push(first);
    proof {
        assert(components@ =~= Seq::<SingleValue>::empty().push(components@[0]));
        lemma_singles_view_push(Seq::<SingleValue>::empty(), components@[0]);
        assert(singles_view(Seq::<SingleValue>::empty()) =~= Seq::<SingleValueS>::empty());
    }
    while peek_primitive(toks, i).is_some()
        invariant
            pos < i <= toks@.len(),
            components@.len() >= 1,
            ts == tokens_of(toks@),
            (if spec_peek_primitive(ts, i as int) is Some {
                match spec_ao_components(ts, i as int) {
                    Some(tail) => spec_ao_components(ts, pos as int) == Some(
                        (singles_view(components@) + tail.0, tail.1),
                    ),
                    None => spec_ao_components(ts, pos as int) is None,
                }
            } else {
                spec_ao_components(ts, pos as int) == Some((singles_view(components@), i as int))
            }),
        decreases toks@.len() - i,
    {
        let ghost pre = singles_view(components@);
        match parse_single(toks, i) {
            Ok((v, j)) => {
                proof {
                    lemma_singles_view_push(components@, v);
                }
                components.push(v);
                i = j;
                proof {
                    if spec_peek_primitive(ts, i as int) is Some {
                        match spec_ao_components(ts, i as int) {
                            Some(tail) => {
                                assert(pre + (seq![single_view(v)] + tail.0) =~= singles_view(
                                    components@,
                                ) + tail.0);
                            },
                            None => {},
                        }
                    } else {
                        assert(pre + seq![single_view(v)] =~= singles_view(components@));
                    }
                }
            },
            Err(e) => {
                return Err(e);
            },
        }
    }
    let ao = AllOrdered { components };
    proof {
        assert(spec_parse_all_ordered(ts, pos as int) == Some((ao_view(ao), i as int)));
    }
    Ok((ao, i))
}

/// Parses `&&`-joined components.
#[verifier::rlimit(100)]
#[verifier::spinoff_prover]
pub fn parse_all_unordered(toks: &Vec<Token>, pos: usize) -> (r: Result<
    (AllUnordered, usize),
    SyntaxError,
>)
    requires
        pos <= toks@.len(),
    ensures
        (match r {
            Ok((au, j)) => pos < j <= toks@.len() && au.components@.len() >= 1 && spec_parse_all_unordered(
                tokens_of(toks@),
                pos as int,
            ) == Some((au_view(au), j as int)),
            Err(e) => spec_parse_all_unordered(tokens_of(toks@), pos as int) is None && e.pos <= toks@.len(),
        }),
    decreases toks@.len() - pos, 3int,
{
    let ghost ts = tokens_of(toks@);
    let (first, mut i) = match parse_all_ordered(toks, pos) {
        Ok(v) => v,
        Err(e) => {
            return Err(e);
        },
    };
    let mut components: Vec<AllOrdered> = Vec::new();
    components.push(first);
    proof {
        assert(components@ =~= Seq::<AllOrdered>::empty().push(components@[0]));
        lemma_aos_view_push(Seq::<AllOrdered>::empty(), components@[0]);
        assert(aos_view(Seq::<AllOrdered>::empty()) =~= Seq::<AllOrderedS>::empty());
    }
    while i < toks.len() && matches!(&toks[i], Token::AmpAmp)
        invariant
            pos < i <= toks@.len(),
            components@.len() >= 1,
            ts == tokens_of(toks@),
            (if i < ts.len() && ts[i as int] is AmpAmp {
                match spec_au_components(ts, i + 1) {
                    Some(tail) => spec_au_components(ts, pos as int) == Some(
                        (aos_view(components@) + tail.0, tail.1),
                    ),
                    None => spec_au_components(ts, pos as int) is None,
                }
            } else {
                spec_au_components(ts, pos as int) == Some((aos_view(components@), i as int))
            }),
        decreases toks@.len() - i,
    {
        let ghost pre = aos_view(components@);
        match parse_all_ordered(toks, i + 1) {
            Ok((v, j)) => {
                proof {
                    lemma_aos_view_push(components@, v);
                }
                components.push(v);
                i = j;
                proof {
                    if i < ts.len() && ts[i as int] is AmpAmp {
                        match spec_au_components(ts, i + 1) {
                            Some(tail) => {
                                assert(pre + (seq![ao_view(v)] + tail.0) =~= aos_view(
                                    components@,
                                ) + tail.0);
                            },
                            None => {},
                        }
                    } else {
                        assert(pre + seq![ao_view(v)] =~= aos_view(components@));
                    }
                }
            },
            Err(e) => {
                return Err(e);
            },
        }
    }
    let node = AllUnordered { components };
    proof {
        assert(spec_parse_all_unordered(ts, pos as int) == Some((au_view(node), i as int)));
    }
    Ok((node, i))
}

/// Parses `||`-joined components.
#[verifier::rlimit(100)]
#[verifier::spinoff_prover]
pub fn parse_one_or_more_unordered(toks: &Vec<Token>, pos: usize) -> (r: Result<
    (OneOrMoreUnordered, usize),
    SyntaxError,
>)
    requires
        pos <= toks@.len(),
    ensures
        (match r {
            Ok((om, j)) => pos < j <= toks@.len() && om.components@.len() >= 1 && spec_parse_one_or_more(
                tokens_of(toks@),
                pos as int,
            ) == Some((om_view(om), j as int)),
            Err(e) => spec_parse_one_or_more(tokens_of(toks@), pos as int) is None && e.pos <= toks@.len(),
        }),
    decreases toks@.len() - pos, 4int,
{
    let ghost ts = tokens_of(toks@);
    let (first, mut i) = match parse_all_unordered(toks, pos) {
        Ok(v) => v,
        Err(e) => {
            return Err(e);
        },
    };
    let mut components: Vec<AllUnordered> = Vec::new();
    components.push(first);
    proof {
        assert(components@ =~= Seq::<AllUnordered>::empty().push(components@[0]));
        lemma_aus_view_push(Seq::<AllUnordered>::empty(), components@[0]);
        assert(aus_view(Seq::<AllUnordered>::empty()) =~= Seq::<AllUnorderedS>::empty());
    }
    while i < toks.len() && matches!(&toks[i], Token::PipePipe)
        invariant
            pos < i <= toks@.len(),
            components@.len() >= 1,
            ts == tokens_of(toks@),
            (if i < ts.len() && ts[i as int] is PipePipe {
                match spec_om_components(ts, i + 1) {
                    Some(tail) => spec_om_components(ts, pos as int) == Some(
                        (aus_view(components@) + tail.0, tail.1),
                    ),
                    None => spec_om_components(ts, pos as int) is None,
                }
            } else {
                spec_om_components(ts, pos as int) == Some((aus_view(components@), i as int))
            }),
        decreases toks@.len() - i,
    {
        let ghost pre = aus_view(components@);
        match parse_all_unordered(toks, i + 1) {
            Ok((v, j)) => {
                proof {
                    lemma_aus_view_push(components@, v);
                }
                components.push(v);
                i = j;
                proof {
                    if i < ts.len() && ts[i as int] is PipePipe {
                        match spec_om_components(ts, i + 1) {
                            Some(tail) => {
                                assert(pre + (seq![au_view(v)] + tail.0) =~= aus_view(
                                    components@,
                                ) + tail.0);
                            },
                            None => {},
                        }
                    } else {
                        assert(pre + seq![au_view(v)] =~= aus_view(components@));
                    }
                }
            },
            Err(e) => {
                return Err(e);
            },
        }
    }
    let node = OneOrMoreUnordered { components };
    proof {
        assert(spec_parse_one_or_more(ts, pos as int) == Some((om_view(node), i as int)));
    }
    Ok((node, i))
}

/// Parses `|`-joined alternatives.
#[verifier::rlimit(100)]
#[verifier::spinoff_prover]
pub fn parse_enumeration(toks: &Vec<Token>, pos: usize) -> (r: Result<
    (Enumeration, usize),
    SyntaxError,
>)
    requires
        pos <= toks@.len(),
    ensures
        (match r {
            Ok((e, j)) => pos < j <= toks@.len() && e.components@.len() >= 1 && spec_parse_enumeration(
                tokens_of(toks@),
                pos as int,
            ) == Some((enum_view(e), j as int)),
            Err(e) => spec_parse_enumeration(tokens_of(toks@), pos as int) is None && e.pos <= toks@.len(),
        }),
    decreases toks@.len() - pos, 5int,
{
    let ghost ts = tokens_of(toks@);
    let (first, mut i) = match parse_one_or_more_unordered(toks, pos) {
        Ok(v) => v,
        Err(e) => {
            return Err(e);
        },
    };
    let mut components: Vec<OneOrMoreUnordered> = Vec::new();
    components.push(first);
    proof {
        assert(components@ =~= Seq::<OneOrMoreUnordered>::empty().push(components@[0]));
        lemma_oms_view_push(Seq::<OneOrMoreUnordered>::empty(), components@[0]);
        assert(oms_view(Seq::<OneOrMoreUnordered>::empty()) =~= Seq::<OneOrMoreUnorderedS>::empty());
    }
    while i < toks.len() && matches!(&toks[i], Token::Pipe)
        invariant
            pos < i <= toks@.len(),
            components@.len() >= 1,
            ts == tokens_of(toks@),
            (if i < ts.len() && ts[i as int] is Pipe {
                match spec_enum_components(ts, i + 1) {
                    Some(tail) => spec_enum_components(ts, pos as int) == Some(
                        (oms_view(components@) + tail.0, tail.1),
                    ),
                    None => spec_enum_components(ts, pos as int) is None,
                }
            } else {
                spec_enum_components(ts, pos as int) == Some((oms_view(components@), i as int))
            }),
        decreases toks@.len() - i,
    {
        let ghost pre = oms_view(components@);
        match parse_one_or_more_unordered(toks, i + 1) {
            Ok((v, j)) => {
                proof {
                    lemma_oms_view_push(components@, v);
                }
                components.push(v);
                i = j;
                proof {
                    if i < ts.len() && ts[i as int] is Pipe {
                        match spec_enum_components(ts, i + 1) {
                            Some(tail) => {
                                assert(pre + (seq![om_view(v)] + tail.0) =~= oms_view(
                                    components@,
                                ) + tail.0);
                            },
                            None => {},
                        }
                    } else {
                        assert(pre + seq![om_view(v)] =~= oms_view(components@));
                    }
                }
            },
            Err(e) => {
                return Err(e);
            },
        }
    }
    let node = Enumeration { components };
    proof {
        assert(spec_parse_enumeration(ts, pos as int) == Some((enum_view(node), i as int)));
    }
    Ok((node, i))
}

/// Parses a full combinator expression and collapses a single component
/// through every level.
pub fn parse_combined(toks: &Vec<Token>, pos: usize) -> (r: Result<
    (CombinedValue, usize),
    SyntaxError,
>)
    requires
        pos <= toks@.len(),
    ensures
        (match r {
            Ok((cv, j)) => pos < j <= toks@.len() && spec_parse_combined(
                tokens_of(toks@),
                pos as int,
            ) == Some((cv_view(cv), j as int)),
            Err(e) => spec_parse_combined(tokens_of(toks@), pos as int) is None && e.pos
                <= toks@.len(),
        }),
    decreases toks@.len() - pos, 6int,
{
    match parse_enumeration(toks, pos) {
        Ok((e, j)) => {
            proof {
                lemma_from_enumeration_view(e);
            }
            Ok((CombinedValue::from_enumeration(e), j))
        },
        Err(e) => Err(e),
    }
}

/// Parses the tail of one rule line after its name: `= <expr> ;`.
fn parse_line_tail(toks: &Vec<Token>, pos: usize) -> (r: Result<
    (GenericDefinitionLine, usize),
    SyntaxError,
>)
    requires
        pos <= toks@.len(),
    ensures
        (match r {
            Ok((line, j)) => pos < j <= toks@.len() && spec_parse_line_tail(
                tokens_of(toks@),
                pos as int,
            ) == Some((line_view(line), j as int)),
            Err(e) => spec_parse_line_tail(tokens_of(toks@), pos as int) is None && e.pos
                <= toks@.len(),
        }),
{
    let mut i = pos;
    if i >= toks.len() || !matches!(&toks[i], Token::Eq) {
        return Err(SyntaxError::at(i, "equals sign"));
    }
    i = i + 1;
    let (value, j) = match parse_combined(toks, i) {
        Ok(v) => v,
        Err(e) => {
            return Err(e);
        },
    };
    i = j;
    if i >= toks.len() || !matches!(&toks[i], Token::Semi) {
        return Err(SyntaxError::at(i, "semicolon"));
    }
    Ok((GenericDefinitionLine { value }, i + 1))
}

/// Parses one `<name> = ...;` rule.
#[verifier::rlimit(100)]
#[verifier::spinoff_prover]
pub fn parse_value_definition(toks: &Vec<Token>, pos: usize) -> (r: Result<
    (ValueDefinition, usize),
    SyntaxError,
>)
    requires
        pos <= toks@.len(),
    ensures
        (match r {
            Ok((vd, j)) => pos < j <= toks@.len() && spec_parse_value_definition(
                tokens_of(toks@),
                pos as int,
            ) == Some((vdef_view(vd), j as int)),
            Err(e) => spec_parse_value_definition(tokens_of(toks@), pos as int) is None && e.pos
                <= toks@.len(),
        }),
{
    let mut i = pos;
    if i >= toks.len() || !matches!(&toks[i], Token::LAngle) {
        return Err(SyntaxError::at(i, "reference"));
    }
    i = i + 1;
    let ident: CssIdent = if i < toks.len() {
        match &toks[i] {
            Token::Ident(s) => ident_from_text(s),
            _ => {
                return Err(SyntaxError::at(i, "reference name"));
            },
        }
    } else {
        return Err(SyntaxError::at(i, "reference name"));
    };
    i = i + 1;
    let mut range: Option<ClosedRange> = None;
    if i < toks.len() && matches!(&toks[i], Token::LBracket) {
        match parse_closed_range(toks, i) {
            Ok((cr, j)) => {
                range = Some(cr);
                i = j;
            },
            Err(e) => {
                return Err(e);
            },
        }
    }
    if i >= toks.len() || !matches!(&toks[i], Token::RAngle) {
        return Err(SyntaxError::at(i, "closing angle bracket"));
    }
    i = i + 1;
    let (line, j) = match parse_line_tail(toks, i) {
        Ok(v) => v,
        Err(e) => {
            return Err(e);
        },
    };
    let vd = ValueDefinition { name: Reference { ident, range }, line };
    proof {
        assert(spec_parse_value_definition(tokens_of(toks@), pos as int) == Some((
            vdef_view(vd),
            j as int,
        )));
    }
    Ok((vd, j))
}

/// Parses one `<"name"> = ...;` rule.
pub fn parse_property_definition(toks: &Vec<Token>, pos: usize) -> (r: Result<
    (PropertyDefinition, usize),
    SyntaxError,
>)
    requires
        pos <= toks@.len(),
    ensures
        (match r {
            Ok((pd, j)) => pos < j <= toks@.len() && spec_parse_property_definition(
                tokens_of(toks@),
                pos as int,
            ) == Some((pdef_view(pd), j as int)),
            Err(e) => spec_parse_property_definition(tokens_of(toks@), pos as int) is None
                && e.pos <= toks@.len(),
        }),
{
    let mut i = pos;
    if i >= toks.len() || !matches!(&toks[i], Token::LAngle) {
        return Err(SyntaxError::at(i, "property reference"));
    }
    i = i + 1;
    let name: String = if i < toks.len() {
        match &toks[i] {
            Token::Str(s) => s.clone(),
            _ => {
                return Err(SyntaxError::at(i, "quoted property name"));
            },
        }
    } else {
        return Err(SyntaxError::at(i, "quoted property name"));
    };
    i = i + 1;
    if i >= toks.len() || !matches!(&toks[i], Token::RAngle) {
        return Err(SyntaxError::at(i, "closing angle bracket"));
    }
    i = i + 1;
    let (line, j) = match parse_line_tail(toks, i) {
        Ok(v) => v,
        Err(e) => {
            return Err(e);
        },
    };
    let pd = PropertyDefinition { name, line };
    proof {
        assert(spec_parse_property_definition(tokens_of(toks@), pos as int) == Some((
            pdef_view(pd),
            j as int,
        )));
    }
    Ok((pd, j))
}

/// Parses the definition a grammar file starts with: a property rule when
/// the second token is a quoted name, a value rule otherwise.
pub fn parse_definition(toks: &Vec<Token>, pos: usize) -> (r: Result<
    (Definition, usize),
    SyntaxError,
>)
    requires
        pos <= toks@.len(),
    ensures
        (match r {
            Ok((d, j)) => pos < j <= toks@.len() && spec_parse_definition(
                tokens_of(toks@),
                pos as int,
            ) == Some((def_view(d), j as int)),
            Err(e) => spec_parse_definition(tokens_of(toks@), pos as int) is None && e.pos
                <= toks@.len(),
        }),
{
    if pos < toks.len() && pos + 1 < toks.len() && matches!(&toks[pos + 1], Token::Str(_)) {
        match parse_property_definition(toks, pos) {
            Ok((pd, j)) => Ok((Definition::Property(pd), j)),
            Err(e) => Err(e),
        }
    } else {
        match parse_value_definition(toks, pos) {
            Ok((vd, j)) => Ok((Definition::Value(vd), j)),
            Err(e) => Err(e),
        }
    }
}

/// Parses a whole grammar file: one definition, then value rules until
/// the input ends.
pub fn parse_vds_tokens(toks: &Vec<Token>) -> (r: Result<Vds, SyntaxError>)
    ensures
        (match r {
            Ok(v) => spec_parse_vds_tokens(tokens_of(toks@)) == Some(vds_view(v)),
            Err(e) => spec_parse_vds_tokens(tokens_of(toks@)) is None && e.pos <= toks@.len(),
        }),
{
    let ghost ts = tokens_of(toks@);
    let (definition, mut i) = match parse_definition(toks, 0) {
        Ok(v) => v,
        Err(e) => {
            return Err(e);
        },
    };
    let ghost def_end = i as int;
    let mut values: Vec<ValueDefinition> = Vec::new();
    proof {
        assert(vdefs_view(values@) =~= Seq::<ValueDefinitionS>::empty());
        match spec_vds_values(ts, i as int) {
            Some(rest) => {
                assert(vdefs_view(values@) + rest =~= rest);
            },
            None => {},
        }
    }
    while i < toks.len()
        invariant
            i <= toks@.len(),
            ts == tokens_of(toks@),
            spec_parse_definition(ts, 0) == Some((def_view(definition), def_end)),
            0 <= def_end <= ts.len(),
            (match spec_vds_values(ts, i as int) {
                Some(rest) => spec_vds_values(ts, def_end) == Some(vdefs_view(values@) + rest),
                None => spec_vds_values(ts, def_end) is None,
            }),
        decreases toks@.len() - i,
    {
        let ghost pre = vdefs_view(values@);
        match parse_value_definition(toks, i) {
            Ok((vd, j)) => {
                proof {
                    lemma_vdefs_view_push(values@, vd);
                }
                values.push(vd);
                i = j;
                proof {
                    match spec_vds_values(ts, i as int) {
                        Some(rest) => {
                            assert(pre + (seq![vdef_view(vd)] + rest) =~= vdefs_view(values@)
                                + rest);
                        },
                        None => {},
                    }
                }
            },
            Err(e) => {
                return Err(e);
            },
        }
    }
    let v = Vds { definition, values };
    proof {
        assert(spec_vds_values(ts, i as int) == Some(Seq::<ValueDefinitionS>::empty()));
        assert(vdefs_view(values@) + Seq::<ValueDefinitionS>::empty() =~= vdefs_view(values@));
        assert(spec_parse_vds_tokens(ts) == Some(vds_view(v)));
    }
    Ok(v)
}

/// Parses grammar source text into its AST: the result is fixed by the
/// text, and the call succeeds exactly when lexing and parsing derive.
pub fn parse_vds(src: &str) -> (r: Result<Vds, SyntaxError>)
    ensures
        (match r {
            Ok(v) => spec_parse_vds_text(src@) == Some(vds_view(v)),
            Err(_) => spec_parse_vds_text(src@) is None,
        }),
{
    let toks = match lex(src) {
        Ok(t) => t,
        Err(e) => {
            return Err(e);
        },
    };
    parse_vds_tokens(&toks)
}

} // verus!
