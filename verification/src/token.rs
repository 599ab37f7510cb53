//! The classified, span-tagged lexical units produced by the lexer.

use vstd::prelude::*;
use crate::span::Span;

verus! {

/// The closed set of token classes. Literal kinds carry their text in the
/// owning [`Token`]; keyword and operator kinds are fully determined by the
/// kind alone. `Ident` is the catch-all for unresolved names (macro
/// invocations or box references), whose validity is checked later.
#[derive(Debug, Clone, Copy, PartialEq, Eq, Structural)]
pub enum TokenKind {
    /// An integer literal.
    Number,
    /// A double-quote delimited string literal; the token text excludes the
    /// quotes while the span includes them.
    String,
    /// `true` or `false`.
    Boolean,
    /// `+`
    Add,
    /// `-`
    Sub,
    /// `*`
    Mul,
    /// `/`
    Div,
    /// `print`
    Print,
    /// `or`
    Or,
    /// `and`
    And,
    /// `not`
    Not,
    /// `eq`
    Eq,
    /// `<`
    LessThan,
    /// `>`
    GreaterThan,
    /// `<=`
    LessThanEq,
    /// `>=`
    GreaterThanEq,
    /// `if`
    If,
    /// `end`
    End,
    /// `macro`
    Macro,
    /// `dup`
    Dup,
    /// `drop`
    Drop,
    /// `swap`
    Swap,
    /// `over`
    Over,
    /// `rot`
    Rot,
    /// Any word that is no keyword and no literal: a macro name or a box
    /// reference.
    Ident,
    /// `type`
    Type,
    /// `type::int`
    TypeInt,
    /// `type::bool`
    TypeBool,
    /// `type::str`
    TypeStr,
    /// `type::box<int>`
    TypeBoxedInt,
    /// `type::box<str>`
    TypeBoxedStr,
    /// `type::box<bool>`
    TypeBoxedBool,
    /// `assert`
    Assert,
    /// `box`
    Box,
    /// `pack`
    Pack,
    /// `unpack`
    Unpack,
    /// Reserved for a loop construct; the lexer never produces it.
    Until,
}

/// A lexical unit: its span in the original source, its text (for string
/// tokens, without the surrounding quotes), and its class.
#[derive(Debug)]
pub struct Token {
    pub span: Span,
    pub text: String,
    pub kind: TokenKind,
}

impl Clone for Token {
    fn clone(&self) -> (r: Self)
        ensures
            r == *self,
    {
        Token { span: self.span, text: self.text.clone(), kind: self.kind }
    }
}

/// The mathematical image of a [`Token`]: the text as a character sequence.
pub ghost struct TokenV {
    pub span: Span,
    pub text: Seq<char>,
    pub kind: TokenKind,
}

impl View for Token {
    type V = TokenV;

    open spec fn view(&self) -> TokenV {
        TokenV { span: self.span, text: self.text@, kind: self.kind }
    }
}

/// The span a token starting at `start` with text `text` covers: string
/// literals are two characters longer than their text, since the delimiting
/// quotes are stripped from the text but belong to the token. The length is
/// clamped to the `usize` range.
pub open spec fn spec_token_span(text: Seq<char>, start: int, kind: TokenKind) -> Span {
    let extra: int = if kind is String {
        2
    } else {
        0
    };
    let l: int = if text.len() + extra <= usize::MAX {
        text.len() + extra
    } else {
        usize::MAX as int
    };
    Span { offset: start as usize, len: l as usize }
}

impl Token {
    /// Build a token from its text, its start offset, and its kind, deriving
    /// the span length from the text.
    pub fn new(text: String, start: usize, kind: TokenKind) -> (r: Token)
        ensures
            r@ == (TokenV { span: spec_token_span(text@, start as int, kind), text: text@, kind }),
    {
        let n = text.as_str().unicode_len();
        let span_len = if let TokenKind::String = kind {
            if n <= usize::MAX - 2 {
                n + 2
            } else {
                usize::MAX
            }
        } else {
            n
        };
        Token { span: Span { offset: start, len: span_len }, text, kind }
    }
}

} // verus!
