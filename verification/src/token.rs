//! Tokens: what the scanner hands out.

use vstd::prelude::*;
use vstd::string::*;

verus! {

/// The kind of a token.
#[derive(Debug, Copy, Clone, PartialEq, Eq, Structural)]
pub enum TokenKind {
    // Single-character tokens
    LeftParen,
    RightParen,
    LeftBrace,
    RightBrace,
    Comma,
    Dot,
    Minus,
    Plus,
    Semicolon,
    Slash,
    Star,
    // One or two character tokens
    Bang,
    BangEqual,
    Equal,
    EqualEqual,
    Greater,
    GreaterEqual,
    Less,
    LessEqual,
    // Literals
    Identifier,
    String,
    /// A decimal literal. Its value is what its lexeme spells.
    Number,
    // Keywords
    And,
    Class,
    Else,
    False,
    Fun,
    For,
    If,
    Nil,
    Or,
    Print,
    Return,
    Super,
    This,
    True,
    Var,
    While,
    EOF,
}

/// The upper-case name under which a kind is printed.
pub open spec fn kind_name(kind: TokenKind) -> Seq<char> {
    match kind {
        TokenKind::LeftParen => "LEFT_PAREN"@,
        TokenKind::RightParen => "RIGHT_PAREN"@,
        TokenKind::LeftBrace => "LEFT_BRACE"@,
        TokenKind::RightBrace => "RIGHT_BRACE"@,
        TokenKind::Comma => "COMMA"@,
        TokenKind::Dot => "DOT"@,
        TokenKind::Minus => "MINUS"@,
        TokenKind::Plus => "PLUS"@,
        TokenKind::Semicolon => "SEMICOLON"@,
        TokenKind::Slash => "SLASH"@,
        TokenKind::Star => "STAR"@,
        TokenKind::Bang => "BANG"@,
        TokenKind::BangEqual => "BANG_EQUAL"@,
        TokenKind::Equal => "EQUAL"@,
        TokenKind::EqualEqual => "EQUAL_EQUAL"@,
        TokenKind::Greater => "GREATER"@,
        TokenKind::GreaterEqual => "GREATER_EQUAL"@,
        TokenKind::Less => "LESS"@,
        TokenKind::LessEqual => "LESS_EQUAL"@,
        TokenKind::Identifier => "IDENTIFIER"@,
        TokenKind::String => "STRING"@,
        TokenKind::Number => "NUMBER"@,
        TokenKind::And => "AND"@,
        TokenKind::Class => "CLASS"@,
        TokenKind::Else => "ELSE"@,
        TokenKind::False => "FALSE"@,
        TokenKind::Fun => "FUN"@,
        TokenKind::For => "FOR"@,
        TokenKind::If => "IF"@,
        TokenKind::Nil => "NIL"@,
        TokenKind::Or => "OR"@,
        TokenKind::Print => "PRINT"@,
        TokenKind::Return => "RETURN"@,
        TokenKind::Super => "SUPER"@,
        TokenKind::This => "THIS"@,
        TokenKind::True => "TRUE"@,
        TokenKind::Var => "VAR"@,
        TokenKind::While => "WHILE"@,
        TokenKind::EOF => "EOF"@,
    }
}

/// The line that stands for a token in a listing: the name of its kind, a
/// space, and its lexeme.
pub open spec fn listing_line(kind: TokenKind, lexeme: Seq<char>) -> Seq<char> {
    kind_name(kind) + " "@ + lexeme
}

impl TokenKind {
    /// The upper-case name under which this kind is printed.
    pub fn name(&self) -> (r: &'static str)
        ensures
            r@ == kind_name(*self),
    {
        match self {
            TokenKind::LeftParen => "LEFT_PAREN",
            TokenKind::RightParen => "RIGHT_PAREN",
            TokenKind::LeftBrace => "LEFT_BRACE",
            TokenKind::RightBrace => "RIGHT_BRACE",
            TokenKind::Comma => "COMMA",
            TokenKind::Dot => "DOT",
            TokenKind::Minus => "MINUS",
            TokenKind::Plus => "PLUS",
            TokenKind::Semicolon => "SEMICOLON",
            TokenKind::Slash => "SLASH",
            TokenKind::Star => "STAR",
            TokenKind::Bang => "BANG",
            TokenKind::BangEqual => "BANG_EQUAL",
            TokenKind::Equal => "EQUAL",
            TokenKind::EqualEqual => "EQUAL_EQUAL",
            TokenKind::Greater => "GREATER",
            TokenKind::GreaterEqual => "GREATER_EQUAL",
            TokenKind::Less => "LESS",
            TokenKind::LessEqual => "LESS_EQUAL",
            TokenKind::Identifier => "IDENTIFIER",
            TokenKind::String => "STRING",
            TokenKind::Number => "NUMBER",
            TokenKind::And => "AND",
            TokenKind::Class => "CLASS",
            TokenKind::Else => "ELSE",
            TokenKind::False => "FALSE",
            TokenKind::Fun => "FUN",
            TokenKind::For => "FOR",
            TokenKind::If => "IF",
            TokenKind::Nil => "NIL",
            TokenKind::Or => "OR",
            TokenKind::Print => "PRINT",
            TokenKind::Return => "RETURN",
            TokenKind::Super => "SUPER",
            TokenKind::This => "THIS",
            TokenKind::True => "TRUE",
            TokenKind::Var => "VAR",
            TokenKind::While => "WHILE",
            TokenKind::EOF => "EOF",
        }
    }
}

/// A token: its kind, the text it was recognised from, and the byte offset in
/// the source at which the token begins.
#[derive(Debug)]
pub struct Token<'src> {
    pub kind: TokenKind,
    pub lexeme: &'src str,
    pub offset: usize,
}

/// What a token is, with its lexeme as a sequence of characters.
pub struct TokenView {
    pub kind: TokenKind,
    pub lexeme: Seq<char>,
    pub offset: int,
}

impl<'src> View for Token<'src> {
    type V = TokenView;

    open spec fn view(&self) -> TokenView {
        TokenView { kind: self.kind, lexeme: self.lexeme@, offset: self.offset as int }
    }
}

impl<'src> Token<'src> {
    pub fn new(kind: TokenKind, lexeme: &'src str, offset: usize) -> (token: Token<'src>)
        ensures
            token.kind == kind,
            token.lexeme == lexeme,
            token.offset == offset,
    {
        Token { kind, lexeme, offset }
    }

    /// The line that stands for this token in a listing.
    pub fn to_string(&self) -> (line: String)
        ensures
            line@ == listing_line(self.kind, self.lexeme@),
    {
        let mut line = String::from_str(self.kind.name());
        line.append(" ");
        line.append(self.lexeme);
        line
    }
}

} // verus!
