use vstd::prelude::*;

verus! {

/// The kind of a lexical token of Dex source text.
#[derive(Debug, Clone, Copy, PartialEq, Eq, Structural)]
pub enum TokenKind {
    IntLiteral,
    FltLiteral,
    StrLiteral,

    Mut,
    If,
    Else,
    When,
    In,
    Then,
    Struct,
    Error,
    I,
    AbyssType,
    IntType,
    FltType,
    StrType,
    BoolType,
    True,
    False,

    Equals,
    Colon,
    Semicolon,
    LeftParen,
    RightParen,
    LeftBrace,
    RightBrace,
    LeftBracket,
    RightBracket,
    Arrow,
    PipeArrow,
    PipeLine,
    Pipe,
    Question,
    Bang,
    DoubleBang,
    At,
    Dot,
    DotDot,
    Plus,
    Minus,
    Star,
    Slash,
    Caret,
    Percent,
    LeftAngle,
    RightAngle,
    Underscore,
    Comma,

    DoubleEquals,
    NotEquals,
    LessEqual,
    GreaterEquals,

    And,
    Or,

    Band,
    Bor,
    Bxor,
    Bnot,

    Identifier,
    EOF,
}

/// A token: its kind, the source text it stands for, and where it starts
/// (1-indexed line and column).
#[derive(Debug, Clone)]
pub struct Token {
    pub kind: TokenKind,
    pub value: String,
    pub line: usize,
    pub column: usize,
}

/// The mathematical content of a token.
pub struct TokenView {
    pub kind: TokenKind,
    pub value: Seq<char>,
    pub line: int,
    pub column: int,
}

impl View for Token {
    type V = TokenView;

    open spec fn view(&self) -> TokenView {
        TokenView {
            kind: self.kind,
            value: self.value@,
            line: self.line as int,
            column: self.column as int,
        }
    }
}


/// The name of a token kind, as `Debug` prints it.
pub open spec fn kind_name(k: TokenKind) -> Seq<char> {
    match k {
        TokenKind::IntLiteral => "IntLiteral"@,
        TokenKind::FltLiteral => "FltLiteral"@,
        TokenKind::StrLiteral => "StrLiteral"@,
        TokenKind::Mut => "Mut"@,
        TokenKind::If => "If"@,
        TokenKind::Else => "Else"@,
        TokenKind::When => "When"@,
        TokenKind::In => "In"@,
        TokenKind::Then => "Then"@,
        TokenKind::Struct => "Struct"@,
        TokenKind::Error => "Error"@,
        TokenKind::I => "I"@,
        TokenKind::AbyssType => "AbyssType"@,
        TokenKind::IntType => "IntType"@,
        TokenKind::FltType => "FltType"@,
        TokenKind::StrType => "StrType"@,
        TokenKind::BoolType => "BoolType"@,
        TokenKind::True => "True"@,
        TokenKind::False => "False"@,
        TokenKind::Equals => "Equals"@,
        TokenKind::Colon => "Colon"@,
        TokenKind::Semicolon => "Semicolon"@,
        TokenKind::LeftParen => "LeftParen"@,
        TokenKind::RightParen => "RightParen"@,
        TokenKind::LeftBrace => "LeftBrace"@,
        TokenKind::RightBrace => "RightBrace"@,
        TokenKind::LeftBracket => "LeftBracket"@,
        TokenKind::RightBracket => "RightBracket"@,
        TokenKind::Arrow => "Arrow"@,
        TokenKind::PipeArrow => "PipeArrow"@,
        TokenKind::PipeLine => "PipeLine"@,
        TokenKind::Pipe => "Pipe"@,
        TokenKind::Question => "Question"@,
        TokenKind::Bang => "Bang"@,
        TokenKind::DoubleBang => "DoubleBang"@,
        TokenKind::At => "At"@,
        TokenKind::Dot => "Dot"@,
        TokenKind::DotDot => "DotDot"@,
        TokenKind::Plus => "Plus"@,
        TokenKind::Minus => "Minus"@,
        TokenKind::Star => "Star"@,
        TokenKind::Slash => "Slash"@,
        TokenKind::Caret => "Caret"@,
        TokenKind::Percent => "Percent"@,
        TokenKind::LeftAngle => "LeftAngle"@,
        TokenKind::RightAngle => "RightAngle"@,
        TokenKind::Underscore => "Underscore"@,
        TokenKind::Comma => "Comma"@,
        TokenKind::DoubleEquals => "DoubleEquals"@,
        TokenKind::NotEquals => "NotEquals"@,
        TokenKind::LessEqual => "LessEqual"@,
        TokenKind::GreaterEquals => "GreaterEquals"@,
        TokenKind::And => "And"@,
        TokenKind::Or => "Or"@,
        TokenKind::Band => "Band"@,
        TokenKind::Bor => "Bor"@,
        TokenKind::Bxor => "Bxor"@,
        TokenKind::Bnot => "Bnot"@,
        TokenKind::Identifier => "Identifier"@,
        TokenKind::EOF => "EOF"@,
    }
}

impl TokenKind {
    /// The name of this kind, as `Debug` prints it.
    pub fn name(&self) -> (r: &'static str)
        ensures
            r@ == kind_name(*self),
    {
        match self {
            TokenKind::IntLiteral => "IntLiteral",
            TokenKind::FltLiteral => "FltLiteral",
            TokenKind::StrLiteral => "StrLiteral",
            TokenKind::Mut => "Mut",
            TokenKind::If => "If",
            TokenKind::Else => "Else",
            TokenKind::When => "When",
            TokenKind::In => "In",
            TokenKind::Then => "Then",
            TokenKind::Struct => "Struct",
            TokenKind::Error => "Error",
            TokenKind::I => "I",
            TokenKind::AbyssType => "AbyssType",
            TokenKind::IntType => "IntType",
            TokenKind::FltType => "FltType",
            TokenKind::StrType => "StrType",
            TokenKind::BoolType => "BoolType",
            TokenKind::True => "True",
            TokenKind::False => "False",
            TokenKind::Equals => "Equals",
            TokenKind::Colon => "Colon",
            TokenKind::Semicolon => "Semicolon",
            TokenKind::LeftParen => "LeftParen",
            TokenKind::RightParen => "RightParen",
            TokenKind::LeftBrace => "LeftBrace",
            TokenKind::RightBrace => "RightBrace",
            TokenKind::LeftBracket => "LeftBracket",
            TokenKind::RightBracket => "RightBracket",
            TokenKind::Arrow => "Arrow",
            TokenKind::PipeArrow => "PipeArrow",
            TokenKind::PipeLine => "PipeLine",
            TokenKind::Pipe => "Pipe",
            TokenKind::Question => "Question",
            TokenKind::Bang => "Bang",
            TokenKind::DoubleBang => "DoubleBang",
            TokenKind::At => "At",
            TokenKind::Dot => "Dot",
            TokenKind::DotDot => "DotDot",
            TokenKind::Plus => "Plus",
            TokenKind::Minus => "Minus",
            TokenKind::Star => "Star",
            TokenKind::Slash => "Slash",
            TokenKind::Caret => "Caret",
            TokenKind::Percent => "Percent",
            TokenKind::LeftAngle => "LeftAngle",
            TokenKind::RightAngle => "RightAngle",
            TokenKind::Underscore => "Underscore",
            TokenKind::Comma => "Comma",
            TokenKind::DoubleEquals => "DoubleEquals",
            TokenKind::NotEquals => "NotEquals",
            TokenKind::LessEqual => "LessEqual",
            TokenKind::GreaterEquals => "GreaterEquals",
            TokenKind::And => "And",
            TokenKind::Or => "Or",
            TokenKind::Band => "Band",
            TokenKind::Bor => "Bor",
            TokenKind::Bxor => "Bxor",
            TokenKind::Bnot => "Bnot",
            TokenKind::Identifier => "Identifier",
            TokenKind::EOF => "EOF",
        }
    }
}

} // verus!
