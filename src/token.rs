use vstd::prelude::*;

verus! {

/// The kinds of token the tokenizer produces.
#[derive(Debug, Clone, Copy, PartialEq, Eq, Structural, Default)]
pub enum TokenKind {
    Number,
    Operator,
    Symbol,
    Keyword,
    Comment,
    OpenParen,
    CloseParen,
    OpenBrace,
    CloseBrace,
    LineBreak,
    NewLine,
    Colon,
    Comma,
    Ellipsis,
    StringLiteral,
    Invalid,
    #[default]
    EndOfInput,
}

/// Line (`row`) and column (`col`) of a token's first character, both counted from zero.
#[derive(Debug, Clone, Copy, PartialEq, Eq, Structural, Default)]
pub struct Position {
    pub row: usize,
    pub col: usize,
}

/// A classified lexical unit. `length` is the number of source characters the
/// token spans; `text` is that span, except for string literals, whose text is
/// the literal's decoded content.
#[derive(Debug, Clone, PartialEq, Default)]
pub struct Token {
    pub kind: TokenKind,
    pub text: String,
    pub length: usize,
    pub position: Position,
}

/// What a token holds, with its text as a sequence of characters.
pub struct TokenView {
    pub kind: TokenKind,
    pub text: Seq<char>,
    pub length: nat,
    pub row: nat,
    pub col: nat,
}

impl View for Token {
    type V = TokenView;

    open spec fn view(&self) -> TokenView {
        TokenView {
            kind: self.kind,
            text: self.text@,
            length: self.length as nat,
            row: self.position.row as nat,
            col: self.position.col as nat,
        }
    }
}

/// A copy of `t` that Verus knows to be equal to it.
pub fn copy_token(t: &Token) -> (r: Token)
    ensures
        r == *t,
{
    Token { kind: t.kind, text: t.text.clone(), length: t.length, position: t.position }
}

} // verus!
