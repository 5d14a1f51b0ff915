//! Tokens and operator precedence levels.

use vstd::prelude::*;

verus! {

/// The kind of a lexed token.  Only a subset of the kinds is understood by
/// the parser and generator; the rest are lexed for forward compatibility.
#[derive(Debug, Clone, Copy, PartialEq, Eq, Structural)]
pub enum TokenType {
    // Keywords
    Return,
    Let,
    If,
    Else,
    While,
    For,
    // Literals
    IntLit,
    Int8Lit,
    Int16Lit,
    Int32Lit,
    Int64Lit,
    UInt8Lit,
    UInt16Lit,
    UInt32Lit,
    UInt64Lit,
    FloatLit,
    StringLit,
    BoolLit,
    // Identifiers
    Ident,
    // Operators
    Plus,
    Minus,
    Star,
    Slash,
    Percent,
    Eq,
    EqEq,
    NotEq,
    Lt,
    LtEq,
    Gt,
    GtEq,
    And,
    Or,
    Not,
    Caret,
    // Delimiters
    Semi,
    Comma,
    Dot,
    OpenParen,
    CloseParen,
    OpenBrace,
    CloseBrace,
    OpenBracket,
    CloseBracket,
    // Special
    EOF,
}

/// The payload carried by literal and identifier tokens.
#[derive(Debug, Clone, PartialEq)]
pub enum TokenValue {
    Int8(i8),
    Int16(i16),
    Int32(i32),
    Int64(i64),
    UInt8(u8),
    UInt16(u16),
    UInt32(u32),
    UInt64(u64),
    Boolean(bool),
    Identifier(String),
}

/// One lexed token: a kind, an optional payload, and its source position.
#[derive(Debug, Clone, PartialEq)]
pub struct Token {
    pub _type: TokenType,
    pub value: Option<TokenValue>,
    pub line: usize,
    pub column: usize,
}

/// Binary-operator precedence levels, lowest first.
#[derive(Debug, Clone, Copy, PartialEq, Eq, Structural)]
pub enum Precedence {
    Lowest,
    Assignment,
    LogicalOr,
    LogicalAnd,
    Equality,
    Comparison,
    Term,
    Factor,
    Exponent,
    Unary,
}

impl TokenValue {
    /// An equal copy of this value.
    pub fn duplicate(&self) -> (v: TokenValue)
        ensures
            v == *self,
    {
        match self {
            TokenValue::Int8(n) => TokenValue::Int8(*n),
            TokenValue::Int16(n) => TokenValue::Int16(*n),
            TokenValue::Int32(n) => TokenValue::Int32(*n),
            TokenValue::Int64(n) => TokenValue::Int64(*n),
            TokenValue::UInt8(n) => TokenValue::UInt8(*n),
            TokenValue::UInt16(n) => TokenValue::UInt16(*n),
            TokenValue::UInt32(n) => TokenValue::UInt32(*n),
            TokenValue::UInt64(n) => TokenValue::UInt64(*n),
            TokenValue::Boolean(b) => TokenValue::Boolean(*b),
            TokenValue::Identifier(s) => TokenValue::Identifier(s.clone()),
        }
    }
}

impl Token {
    pub fn new(_type: TokenType, value: Option<TokenValue>, line: usize, column: usize) -> (t:
        Token)
        ensures
            t == (Token { _type, value, line, column }),
    {
        Token { _type, value, line, column }
    }

    /// An equal copy of this token.
    pub fn duplicate(&self) -> (t: Token)
        ensures
            t == *self,
    {
        let value = match &self.value {
            None => None,
            Some(v) => Some(v.duplicate()),
        };
        Token { _type: self._type, value, line: self.line, column: self.column }
    }
}

impl TokenType {
    /// The precedence level a token kind has when it appears as a binary
    /// operator; anything that is not an operator sits at `Lowest`.
    pub open spec fn spec_precedence(self) -> Precedence {
        match self {
            TokenType::Eq => Precedence::Assignment,
            TokenType::Or => Precedence::LogicalOr,
            TokenType::And => Precedence::LogicalAnd,
            TokenType::EqEq => Precedence::Equality,
            TokenType::NotEq => Precedence::Equality,
            TokenType::Lt => Precedence::Comparison,
            TokenType::LtEq => Precedence::Comparison,
            TokenType::Gt => Precedence::Comparison,
            TokenType::GtEq => Precedence::Comparison,
            TokenType::Plus => Precedence::Term,
            TokenType::Minus => Precedence::Term,
            TokenType::Star => Precedence::Factor,
            TokenType::Slash => Precedence::Factor,
            TokenType::Percent => Precedence::Factor,
            TokenType::Caret => Precedence::Exponent,
            TokenType::Not => Precedence::Unary,
            _ => Precedence::Lowest,
        }
    }

    pub fn get_precedence(&self) -> (p: Precedence)
        ensures
            p == self.spec_precedence(),
    {
        match self {
            TokenType::Eq => Precedence::Assignment,
            TokenType::Or => Precedence::LogicalOr,
            TokenType::And => Precedence::LogicalAnd,
            TokenType::EqEq | TokenType::NotEq => Precedence::Equality,
            TokenType::Lt | TokenType::LtEq | TokenType::Gt | TokenType::GtEq => {
                Precedence::Comparison
            },
            TokenType::Plus | TokenType::Minus => Precedence::Term,
            TokenType::Star | TokenType::Slash | TokenType::Percent => Precedence::Factor,
            TokenType::Caret => Precedence::Exponent,
            TokenType::Not => Precedence::Unary,
            _ => Precedence::Lowest,
        }
    }

    /// An arbitrary numbering of the arithmetic operators; zero for
    /// everything else.
    pub open spec fn spec_evaluation_order(self) -> u8 {
        match self {
            TokenType::Minus => 1u8,
            TokenType::Plus => 2u8,
            TokenType::Star => 3u8,
            TokenType::Slash => 4u8,
            TokenType::Percent => 5u8,
            TokenType::Caret => 6u8,
            _ => 0u8,
        }
    }

    pub fn evaluation_order(&self) -> (r: u8)
        ensures
            r == self.spec_evaluation_order(),
    {
        match self {
            TokenType::Minus => 1,
            TokenType::Plus => 2,
            TokenType::Star => 3,
            TokenType::Slash => 4,
            TokenType::Percent => 5,
            TokenType::Caret => 6,
            _ => 0,
        }
    }

    fn is_binary_op(&self) -> (r: bool)
        ensures
            r == (self is Plus || self is Star),
    {
        matches!(self, TokenType::Plus | TokenType::Star)
    }
}

impl Precedence {
    /// The numeric rank of a precedence level, `Lowest` being zero.
    pub open spec fn spec_value(self) -> int {
        match self {
            Precedence::Lowest => 0,
            Precedence::Assignment => 1,
            Precedence::LogicalOr => 2,
            Precedence::LogicalAnd => 3,
            Precedence::Equality => 4,
            Precedence::Comparison => 5,
            Precedence::Term => 6,
            Precedence::Factor => 7,
            Precedence::Exponent => 8,
            Precedence::Unary => 9,
        }
    }

    pub fn value(&self) -> (r: i32)
        ensures
            r as int == self.spec_value(),
    {
        match self {
            Precedence::Lowest => 0,
            Precedence::Assignment => 1,
            Precedence::LogicalOr => 2,
            Precedence::LogicalAnd => 3,
            Precedence::Equality => 4,
            Precedence::Comparison => 5,
            Precedence::Term => 6,
            Precedence::Factor => 7,
            Precedence::Exponent => 8,
            Precedence::Unary => 9,
        }
    }

    /// The next-higher precedence level; `Unary` is already the highest.
    /// Climbing with this on the right-hand side is what makes chains of
    /// equal-precedence operators associate to the left.
    pub open spec fn spec_next_higher(self) -> Precedence {
        match self {
            Precedence::Lowest => Precedence::Assignment,
            Precedence::Assignment => Precedence::LogicalOr,
            Precedence::LogicalOr => Precedence::LogicalAnd,
            Precedence::LogicalAnd => Precedence::Equality,
            Precedence::Equality => Precedence::Comparison,
            Precedence::Comparison => Precedence::Term,
            Precedence::Term => Precedence::Factor,
            Precedence::Factor => Precedence::Exponent,
            Precedence::Exponent => Precedence::Unary,
            Precedence::Unary => Precedence::Unary,
        }
    }

    pub fn next_higher(&self) -> (r: Precedence)
        ensures
            r == self.spec_next_higher(),
    {
        match self {
            Precedence::Lowest => Precedence::Assignment,
            Precedence::Assignment => Precedence::LogicalOr,
            Precedence::LogicalOr => Precedence::LogicalAnd,
            Precedence::LogicalAnd => Precedence::Equality,
            Precedence::Equality => Precedence::Comparison,
            Precedence::Comparison => Precedence::Term,
            Precedence::Term => Precedence::Factor,
            Precedence::Factor => Precedence::Exponent,
            Precedence::Exponent => Precedence::Unary,
            Precedence::Unary => Precedence::Unary,
        }
    }
}

} // verus!
