use vstd::prelude::*;
use crate::rox_type::RoxType;
use crate::rox_type::ValueModel;

verus! {

/// The closed set of lexical token kinds.
#[derive(Clone, Copy, PartialEq, Eq, Structural, Debug)]
pub enum TokenType {
    LeftParen,
    RightParen,
    LeftBrace,
    RightBrace,
    Comma,
    Dot,
    Minus,
    Plus,
    Semicolon,
    Slash,
    Star,
    Bang,
    BangEqual,
    Equal,
    EqualEqual,
    Greater,
    GreaterEqual,
    Less,
    LessEqual,
    Identifier,
    StringLit,
    Number,
    And,
    Class,
    Else,
    False,
    For,
    Fun,
    If,
    Nil,
    Or,
    Print,
    Return,
    Super,
    This,
    True,
    Var,
    While,
    EndOfInput,
}

/// Spec-level mirror of a token.
pub struct TokenModel {
    pub token_type: TokenType,
    pub lexeme: Seq<char>,
    pub literal: ValueModel,
    pub line: int,
}

/// A lexical token: its kind, the exact source text it was scanned from,
/// its literal payload (`Nil` when the kind carries none), and the line it
/// ends on (used for diagnostics only).
#[derive(Debug)]
pub struct Token {
    pub token_type: TokenType,
    pub lexeme: String,
    pub literal: RoxType,
    pub line: usize,
}

impl View for Token {
    type V = TokenModel;

    open spec fn view(&self) -> TokenModel {
        TokenModel {
            token_type: self.token_type,
            lexeme: self.lexeme@,
            literal: self.literal@,
            line: self.line as int,
        }
    }
}

impl Token {
    pub fn new(token_type: TokenType, lexeme: String, literal: RoxType, line: usize) -> (t: Token)
        ensures
            t@ == (TokenModel { token_type, lexeme: lexeme@, literal: literal@, line: line as int }),
    {
        Token { token_type, lexeme, literal, line }
    }
}

impl Clone for Token {
    fn clone(&self) -> (r: Self)
        ensures
            r@ == self@,
    {
        Token {
            token_type: self.token_type,
            lexeme: self.lexeme.clone(),
            literal: self.literal.clone(),
            line: self.line,
        }
    }
}

/// The view of a token sequence, token by token.
pub open spec fn tokens_view(s: Seq<Token>) -> Seq<TokenModel> {
    s.map_values(|t: Token| t@)
}

} // verus!
