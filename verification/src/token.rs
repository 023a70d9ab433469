//! Tokens and source spans for the Nova compiler.
use vstd::prelude::*;

verus! {

/// A position in the source: line and column (both from 1) and length.
#[derive(Debug, Clone, Copy, PartialEq, Eq, Structural)]
pub struct Span {
    pub line: usize,
    pub col: usize,
    pub len: usize,
}

impl Span {
    /// The span at `line`, `col` of length `len`.
    pub fn new(line: usize, col: usize, len: usize) -> (r: Self)
        ensures
            r == (Span { line, col, len }),
    {
        Self { line, col, len }
    }
}

/// The kind of a token, with the value it carries.
#[derive(Debug, Clone, PartialEq)]
pub enum TokenKind {
    // Keywords
    Fn,
    Let,
    Mut,
    If,
    Else,
    While,
    Return,
    Export,
    Import,
    Memory,
    True,
    False,
    Break,
    // Types
    TypeI32,
    TypeI64,
    TypeF32,
    TypeF64,
    TypeBool,
    TypeVoid,
    // Literals and identifiers
    Ident(String),
    Int(i64),
    /// A decimal literal with a fractional part, kept as its digits and
    /// point (separators removed): `3.14` is kept as "3.14".
    Float(String),
    Str(String),
    // Operators
    Plus,
    Minus,
    Star,
    Slash,
    Percent,
    EqEq,
    BangEq,
    Lt,
    LtEq,
    Gt,
    GtEq,
    Amp,
    Pipe,
    Caret,
    Shl,
    Shr,
    Bang,
    Eq,
    PlusEq,
    MinusEq,
    StarEq,
    SlashEq,
    AndAnd,
    OrOr,
    // Delimiters
    LParen,
    RParen,
    LBrace,
    RBrace,
    LBracket,
    RBracket,
    Semicolon,
    Colon,
    Comma,
    Arrow,
    At,
    // End of input
    Eof,
}

/// A token and where it stands in the source.
#[derive(Debug, Clone, PartialEq)]
pub struct Token {
    pub kind: TokenKind,
    pub span: Span,
}

impl Token {
    /// The token of kind `kind` at `span`.
    pub fn new(kind: TokenKind, span: Span) -> (r: Self)
        ensures
            r == (Token { kind, span }),
    {
        Self { kind, span }
    }
}


/// The variant of a token kind, as a number (its place in the declaration).
pub open spec fn tag_of(k: TokenKind) -> u8 {
    match k {
        TokenKind::Fn => 0,
        TokenKind::Let => 1,
        TokenKind::Mut => 2,
        TokenKind::If => 3,
        TokenKind::Else => 4,
        TokenKind::While => 5,
        TokenKind::Return => 6,
        TokenKind::Export => 7,
        TokenKind::Import => 8,
        TokenKind::Memory => 9,
        TokenKind::True => 10,
        TokenKind::False => 11,
        TokenKind::Break => 12,
        TokenKind::TypeI32 => 13,
        TokenKind::TypeI64 => 14,
        TokenKind::TypeF32 => 15,
        TokenKind::TypeF64 => 16,
        TokenKind::TypeBool => 17,
        TokenKind::TypeVoid => 18,
        TokenKind::Ident(..) => 19,
        TokenKind::Int(..) => 20,
        TokenKind::Float(..) => 21,
        TokenKind::Str(..) => 22,
        TokenKind::Plus => 23,
        TokenKind::Minus => 24,
        TokenKind::Star => 25,
        TokenKind::Slash => 26,
        TokenKind::Percent => 27,
        TokenKind::EqEq => 28,
        TokenKind::BangEq => 29,
        TokenKind::Lt => 30,
        TokenKind::LtEq => 31,
        TokenKind::Gt => 32,
        TokenKind::GtEq => 33,
        TokenKind::Amp => 34,
        TokenKind::Pipe => 35,
        TokenKind::Caret => 36,
        TokenKind::Shl => 37,
        TokenKind::Shr => 38,
        TokenKind::Bang => 39,
        TokenKind::Eq => 40,
        TokenKind::PlusEq => 41,
        TokenKind::MinusEq => 42,
        TokenKind::StarEq => 43,
        TokenKind::SlashEq => 44,
        TokenKind::AndAnd => 45,
        TokenKind::OrOr => 46,
        TokenKind::LParen => 47,
        TokenKind::RParen => 48,
        TokenKind::LBrace => 49,
        TokenKind::RBrace => 50,
        TokenKind::LBracket => 51,
        TokenKind::RBracket => 52,
        TokenKind::Semicolon => 53,
        TokenKind::Colon => 54,
        TokenKind::Comma => 55,
        TokenKind::Arrow => 56,
        TokenKind::At => 57,
        TokenKind::Eof => 58,
    }
}

/// The name of a token kind's variant.
pub open spec fn variant_text(k: TokenKind) -> Seq<char> {
    match k {
        TokenKind::Fn => "Fn"@,
        TokenKind::Let => "Let"@,
        TokenKind::Mut => "Mut"@,
        TokenKind::If => "If"@,
        TokenKind::Else => "Else"@,
        TokenKind::While => "While"@,
        TokenKind::Return => "Return"@,
        TokenKind::Export => "Export"@,
        TokenKind::Import => "Import"@,
        TokenKind::Memory => "Memory"@,
        TokenKind::True => "True"@,
        TokenKind::False => "False"@,
        TokenKind::Break => "Break"@,
        TokenKind::TypeI32 => "TypeI32"@,
        TokenKind::TypeI64 => "TypeI64"@,
        TokenKind::TypeF32 => "TypeF32"@,
        TokenKind::TypeF64 => "TypeF64"@,
        TokenKind::TypeBool => "TypeBool"@,
        TokenKind::TypeVoid => "TypeVoid"@,
        TokenKind::Ident(..) => "Ident"@,
        TokenKind::Int(..) => "Int"@,
        TokenKind::Float(..) => "Float"@,
        TokenKind::Str(..) => "Str"@,
        TokenKind::Plus => "Plus"@,
        TokenKind::Minus => "Minus"@,
        TokenKind::Star => "Star"@,
        TokenKind::Slash => "Slash"@,
        TokenKind::Percent => "Percent"@,
        TokenKind::EqEq => "EqEq"@,
        TokenKind::BangEq => "BangEq"@,
        TokenKind::Lt => "Lt"@,
        TokenKind::LtEq => "LtEq"@,
        TokenKind::Gt => "Gt"@,
        TokenKind::GtEq => "GtEq"@,
        TokenKind::Amp => "Amp"@,
        TokenKind::Pipe => "Pipe"@,
        TokenKind::Caret => "Caret"@,
        TokenKind::Shl => "Shl"@,
        TokenKind::Shr => "Shr"@,
        TokenKind::Bang => "Bang"@,
        TokenKind::Eq => "Eq"@,
        TokenKind::PlusEq => "PlusEq"@,
        TokenKind::MinusEq => "MinusEq"@,
        TokenKind::StarEq => "StarEq"@,
        TokenKind::SlashEq => "SlashEq"@,
        TokenKind::AndAnd => "AndAnd"@,
        TokenKind::OrOr => "OrOr"@,
        TokenKind::LParen => "LParen"@,
        TokenKind::RParen => "RParen"@,
        TokenKind::LBrace => "LBrace"@,
        TokenKind::RBrace => "RBrace"@,
        TokenKind::LBracket => "LBracket"@,
        TokenKind::RBracket => "RBracket"@,
        TokenKind::Semicolon => "Semicolon"@,
        TokenKind::Colon => "Colon"@,
        TokenKind::Comma => "Comma"@,
        TokenKind::Arrow => "Arrow"@,
        TokenKind::At => "At"@,
        TokenKind::Eof => "Eof"@,
    }
}

impl TokenKind {
    /// The variant of the kind, as a number: two kinds that carry no value
    /// are equal exactly when their tags are.
    pub fn tag(&self) -> (r: u8)
        ensures
            r == tag_of(*self),
    {
        match self {
            TokenKind::Fn => 0,
            TokenKind::Let => 1,
            TokenKind::Mut => 2,
            TokenKind::If => 3,
            TokenKind::Else => 4,
            TokenKind::While => 5,
            TokenKind::Return => 6,
            TokenKind::Export => 7,
            TokenKind::Import => 8,
            TokenKind::Memory => 9,
            TokenKind::True => 10,
            TokenKind::False => 11,
            TokenKind::Break => 12,
            TokenKind::TypeI32 => 13,
            TokenKind::TypeI64 => 14,
            TokenKind::TypeF32 => 15,
            TokenKind::TypeF64 => 16,
            TokenKind::TypeBool => 17,
            TokenKind::TypeVoid => 18,
            TokenKind::Ident(..) => 19,
            TokenKind::Int(..) => 20,
            TokenKind::Float(..) => 21,
            TokenKind::Str(..) => 22,
            TokenKind::Plus => 23,
            TokenKind::Minus => 24,
            TokenKind::Star => 25,
            TokenKind::Slash => 26,
            TokenKind::Percent => 27,
            TokenKind::EqEq => 28,
            TokenKind::BangEq => 29,
            TokenKind::Lt => 30,
            TokenKind::LtEq => 31,
            TokenKind::Gt => 32,
            TokenKind::GtEq => 33,
            TokenKind::Amp => 34,
            TokenKind::Pipe => 35,
            TokenKind::Caret => 36,
            TokenKind::Shl => 37,
            TokenKind::Shr => 38,
            TokenKind::Bang => 39,
            TokenKind::Eq => 40,
            TokenKind::PlusEq => 41,
            TokenKind::MinusEq => 42,
            TokenKind::StarEq => 43,
            TokenKind::SlashEq => 44,
            TokenKind::AndAnd => 45,
            TokenKind::OrOr => 46,
            TokenKind::LParen => 47,
            TokenKind::RParen => 48,
            TokenKind::LBrace => 49,
            TokenKind::RBrace => 50,
            TokenKind::LBracket => 51,
            TokenKind::RBracket => 52,
            TokenKind::Semicolon => 53,
            TokenKind::Colon => 54,
            TokenKind::Comma => 55,
            TokenKind::Arrow => 56,
            TokenKind::At => 57,
            TokenKind::Eof => 58,
        }
    }

    /// The name of the variant.
    pub fn variant_name(&self) -> (r: &'static str)
        ensures
            r@ == variant_text(*self),
    {
        match self {
            TokenKind::Fn => "Fn",
            TokenKind::Let => "Let",
            TokenKind::Mut => "Mut",
            TokenKind::If => "If",
            TokenKind::Else => "Else",
            TokenKind::While => "While",
            TokenKind::Return => "Return",
            TokenKind::Export => "Export",
            TokenKind::Import => "Import",
            TokenKind::Memory => "Memory",
            TokenKind::True => "True",
            TokenKind::False => "False",
            TokenKind::Break => "Break",
            TokenKind::TypeI32 => "TypeI32",
            TokenKind::TypeI64 => "TypeI64",
            TokenKind::TypeF32 => "TypeF32",
            TokenKind::TypeF64 => "TypeF64",
            TokenKind::TypeBool => "TypeBool",
            TokenKind::TypeVoid => "TypeVoid",
            TokenKind::Ident(..) => "Ident",
            TokenKind::Int(..) => "Int",
            TokenKind::Float(..) => "Float",
            TokenKind::Str(..) => "Str",
            TokenKind::Plus => "Plus",
            TokenKind::Minus => "Minus",
            TokenKind::Star => "Star",
            TokenKind::Slash => "Slash",
            TokenKind::Percent => "Percent",
            TokenKind::EqEq => "EqEq",
            TokenKind::BangEq => "BangEq",
            TokenKind::Lt => "Lt",
            TokenKind::LtEq => "LtEq",
            TokenKind::Gt => "Gt",
            TokenKind::GtEq => "GtEq",
            TokenKind::Amp => "Amp",
            TokenKind::Pipe => "Pipe",
            TokenKind::Caret => "Caret",
            TokenKind::Shl => "Shl",
            TokenKind::Shr => "Shr",
            TokenKind::Bang => "Bang",
            TokenKind::Eq => "Eq",
            TokenKind::PlusEq => "PlusEq",
            TokenKind::MinusEq => "MinusEq",
            TokenKind::StarEq => "StarEq",
            TokenKind::SlashEq => "SlashEq",
            TokenKind::AndAnd => "AndAnd",
            TokenKind::OrOr => "OrOr",
            TokenKind::LParen => "LParen",
            TokenKind::RParen => "RParen",
            TokenKind::LBrace => "LBrace",
            TokenKind::RBrace => "RBrace",
            TokenKind::LBracket => "LBracket",
            TokenKind::RBracket => "RBracket",
            TokenKind::Semicolon => "Semicolon",
            TokenKind::Colon => "Colon",
            TokenKind::Comma => "Comma",
            TokenKind::Arrow => "Arrow",
            TokenKind::At => "At",
            TokenKind::Eof => "Eof",
        }
    }

    /// A copy of the kind.
    pub fn duplicate(&self) -> (r: TokenKind)
        ensures
            r == *self,
    {
        match self {
            TokenKind::Fn => TokenKind::Fn,
            TokenKind::Let => TokenKind::Let,
            TokenKind::Mut => TokenKind::Mut,
            TokenKind::If => TokenKind::If,
            TokenKind::Else => TokenKind::Else,
            TokenKind::While => TokenKind::While,
            TokenKind::Return => TokenKind::Return,
            TokenKind::Export => TokenKind::Export,
            TokenKind::Import => TokenKind::Import,
            TokenKind::Memory => TokenKind::Memory,
            TokenKind::True => TokenKind::True,
            TokenKind::False => TokenKind::False,
            TokenKind::Break => TokenKind::Break,
            TokenKind::TypeI32 => TokenKind::TypeI32,
            TokenKind::TypeI64 => TokenKind::TypeI64,
            TokenKind::TypeF32 => TokenKind::TypeF32,
            TokenKind::TypeF64 => TokenKind::TypeF64,
            TokenKind::TypeBool => TokenKind::TypeBool,
            TokenKind::TypeVoid => TokenKind::TypeVoid,
            TokenKind::Ident(s) => TokenKind::Ident(s.clone()),
            TokenKind::Int(v) => TokenKind::Int(*v),
            TokenKind::Float(s) => TokenKind::Float(s.clone()),
            TokenKind::Str(s) => TokenKind::Str(s.clone()),
            TokenKind::Plus => TokenKind::Plus,
            TokenKind::Minus => TokenKind::Minus,
            TokenKind::Star => TokenKind::Star,
            TokenKind::Slash => TokenKind::Slash,
            TokenKind::Percent => TokenKind::Percent,
            TokenKind::EqEq => TokenKind::EqEq,
            TokenKind::BangEq => TokenKind::BangEq,
            TokenKind::Lt => TokenKind::Lt,
            TokenKind::LtEq => TokenKind::LtEq,
            TokenKind::Gt => TokenKind::Gt,
            TokenKind::GtEq => TokenKind::GtEq,
            TokenKind::Amp => TokenKind::Amp,
            TokenKind::Pipe => TokenKind::Pipe,
            TokenKind::Caret => TokenKind::Caret,
            TokenKind::Shl => TokenKind::Shl,
            TokenKind::Shr => TokenKind::Shr,
            TokenKind::Bang => TokenKind::Bang,
            TokenKind::Eq => TokenKind::Eq,
            TokenKind::PlusEq => TokenKind::PlusEq,
            TokenKind::MinusEq => TokenKind::MinusEq,
            TokenKind::StarEq => TokenKind::StarEq,
            TokenKind::SlashEq => TokenKind::SlashEq,
            TokenKind::AndAnd => TokenKind::AndAnd,
            TokenKind::OrOr => TokenKind::OrOr,
            TokenKind::LParen => TokenKind::LParen,
            TokenKind::RParen => TokenKind::RParen,
            TokenKind::LBrace => TokenKind::LBrace,
            TokenKind::RBrace => TokenKind::RBrace,
            TokenKind::LBracket => TokenKind::LBracket,
            TokenKind::RBracket => TokenKind::RBracket,
            TokenKind::Semicolon => TokenKind::Semicolon,
            TokenKind::Colon => TokenKind::Colon,
            TokenKind::Comma => TokenKind::Comma,
            TokenKind::Arrow => TokenKind::Arrow,
            TokenKind::At => TokenKind::At,
            TokenKind::Eof => TokenKind::Eof,
        }
    }
}

impl Token {
    /// A copy of the token.
    pub fn duplicate(&self) -> (r: Token)
        ensures
            r == *self,
    {
        Token { kind: self.kind.duplicate(), span: self.span }
    }
}

} // verus!
