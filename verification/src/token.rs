//! Tokens: what the scanner produces and the parser consumes.

use vstd::prelude::*;

verus! {

/// The kind of a token. String and number literals carry their text: a string
/// its content without the quotes, a number its digits.
#[derive(Debug, Clone, PartialEq)]
pub enum Type {
    LeftParen,
    RightParen,
    LeftBrace,
    RightBrace,
    Comma,
    Dot,
    Minus,
    Plus,
    Semicolon,
    Slash,
    Star,
    Bang,
    BangEqual,
    Equal,
    EqualEqual,
    Greater,
    GreaterEqual,
    Less,
    LessEqual,
    Identifier,
    String(String),
    Number(String),
    And,
    Class,
    Else,
    False,
    Fun,
    For,
    If,
    Nil,
    Or,
    Print,
    Return,
    Super,
    This,
    True,
    Var,
    While,
    EOF,
}

/// The mathematical view of a token kind.
pub enum TypeView {
    LeftParen,
    RightParen,
    LeftBrace,
    RightBrace,
    Comma,
    Dot,
    Minus,
    Plus,
    Semicolon,
    Slash,
    Star,
    Bang,
    BangEqual,
    Equal,
    EqualEqual,
    Greater,
    GreaterEqual,
    Less,
    LessEqual,
    Identifier,
    String(Seq<char>),
    Number(Seq<char>),
    And,
    Class,
    Else,
    False,
    Fun,
    For,
    If,
    Nil,
    Or,
    Print,
    Return,
    Super,
    This,
    True,
    Var,
    While,
    EOF,
}

impl View for Type {
    type V = TypeView;

    open spec fn view(&self) -> TypeView {
        match self {
            Type::LeftParen => TypeView::LeftParen,
            Type::RightParen => TypeView::RightParen,
            Type::LeftBrace => TypeView::LeftBrace,
            Type::RightBrace => TypeView::RightBrace,
            Type::Comma => TypeView::Comma,
            Type::Dot => TypeView::Dot,
            Type::Minus => TypeView::Minus,
            Type::Plus => TypeView::Plus,
            Type::Semicolon => TypeView::Semicolon,
            Type::Slash => TypeView::Slash,
            Type::Star => TypeView::Star,
            Type::Bang => TypeView::Bang,
            Type::BangEqual => TypeView::BangEqual,
            Type::Equal => TypeView::Equal,
            Type::EqualEqual => TypeView::EqualEqual,
            Type::Greater => TypeView::Greater,
            Type::GreaterEqual => TypeView::GreaterEqual,
            Type::Less => TypeView::Less,
            Type::LessEqual => TypeView::LessEqual,
            Type::Identifier => TypeView::Identifier,
            Type::String(s) => TypeView::String(s@),
            Type::Number(n) => TypeView::Number(n@),
            Type::And => TypeView::And,
            Type::Class => TypeView::Class,
            Type::Else => TypeView::Else,
            Type::False => TypeView::False,
            Type::Fun => TypeView::Fun,
            Type::For => TypeView::For,
            Type::If => TypeView::If,
            Type::Nil => TypeView::Nil,
            Type::Or => TypeView::Or,
            Type::Print => TypeView::Print,
            Type::Return => TypeView::Return,
            Type::Super => TypeView::Super,
            Type::This => TypeView::This,
            Type::True => TypeView::True,
            Type::Var => TypeView::Var,
            Type::While => TypeView::While,
            Type::EOF => TypeView::EOF,
        }
    }
}

/// A literal constant of the language: what a literal token stands for.
#[derive(Debug, Clone, PartialEq)]
pub enum Literal {
    String(String),
    Number(String),
    True,
    False,
    Nil,
}

/// The mathematical view of a literal.
pub enum LiteralView {
    String(Seq<char>),
    Number(Seq<char>),
    True,
    False,
    Nil,
}

impl View for Literal {
    type V = LiteralView;

    open spec fn view(&self) -> LiteralView {
        match self {
            Literal::String(s) => LiteralView::String(s@),
            Literal::Number(n) => LiteralView::Number(n@),
            Literal::True => LiteralView::True,
            Literal::False => LiteralView::False,
            Literal::Nil => LiteralView::Nil,
        }
    }
}

impl Literal {
    /// A copy of this literal.
    pub fn duplicate(&self) -> (copy: Literal)
        ensures
            copy == *self,
    {
        match self {
            Literal::String(s) => Literal::String(s.clone()),
            Literal::Number(n) => Literal::Number(n.clone()),
            Literal::True => Literal::True,
            Literal::False => Literal::False,
            Literal::Nil => Literal::Nil,
        }
    }
}

/// A number that identifies a token kind, whatever a literal carries.
pub open spec fn tag_of(kind: TypeView) -> nat {
    match kind {
        TypeView::LeftParen => 0,
        TypeView::RightParen => 1,
        TypeView::LeftBrace => 2,
        TypeView::RightBrace => 3,
        TypeView::Comma => 4,
        TypeView::Dot => 5,
        TypeView::Minus => 6,
        TypeView::Plus => 7,
        TypeView::Semicolon => 8,
        TypeView::Slash => 9,
        TypeView::Star => 10,
        TypeView::Bang => 11,
        TypeView::BangEqual => 12,
        TypeView::Equal => 13,
        TypeView::EqualEqual => 14,
        TypeView::Greater => 15,
        TypeView::GreaterEqual => 16,
        TypeView::Less => 17,
        TypeView::LessEqual => 18,
        TypeView::Identifier => 19,
        TypeView::String(_) => 20,
        TypeView::Number(_) => 21,
        TypeView::And => 22,
        TypeView::Class => 23,
        TypeView::Else => 24,
        TypeView::False => 25,
        TypeView::Fun => 26,
        TypeView::For => 27,
        TypeView::If => 28,
        TypeView::Nil => 29,
        TypeView::Or => 30,
        TypeView::Print => 31,
        TypeView::Return => 32,
        TypeView::Super => 33,
        TypeView::This => 34,
        TypeView::True => 35,
        TypeView::Var => 36,
        TypeView::While => 37,
        TypeView::EOF => 38,
    }
}

/// Whether a token kind is a literal constant.
pub open spec fn is_literal(kind: TypeView) -> bool {
    kind is String || kind is Number || kind is False || kind is True || kind is Nil
}

/// The constant that a literal token kind stands for.
pub open spec fn literal_of(kind: TypeView) -> LiteralView
    recommends
        is_literal(kind),
{
    match kind {
        TypeView::String(s) => LiteralView::String(s),
        TypeView::Number(n) => LiteralView::Number(n),
        TypeView::False => LiteralView::False,
        TypeView::True => LiteralView::True,
        _ => LiteralView::Nil,
    }
}

impl Type {
    /// The number that identifies this kind.
    pub fn tag(&self) -> (tag: u8)
        ensures
            tag == tag_of(self@),
    {
        match self {
            Type::LeftParen => 0,
            Type::RightParen => 1,
            Type::LeftBrace => 2,
            Type::RightBrace => 3,
            Type::Comma => 4,
            Type::Dot => 5,
            Type::Minus => 6,
            Type::Plus => 7,
            Type::Semicolon => 8,
            Type::Slash => 9,
            Type::Star => 10,
            Type::Bang => 11,
            Type::BangEqual => 12,
            Type::Equal => 13,
            Type::EqualEqual => 14,
            Type::Greater => 15,
            Type::GreaterEqual => 16,
            Type::Less => 17,
            Type::LessEqual => 18,
            Type::Identifier => 19,
            Type::String(_) => 20,
            Type::Number(_) => 21,
            Type::And => 22,
            Type::Class => 23,
            Type::Else => 24,
            Type::False => 25,
            Type::Fun => 26,
            Type::For => 27,
            Type::If => 28,
            Type::Nil => 29,
            Type::Or => 30,
            Type::Print => 31,
            Type::Return => 32,
            Type::Super => 33,
            Type::This => 34,
            Type::True => 35,
            Type::Var => 36,
            Type::While => 37,
            Type::EOF => 38,
        }
    }

    /// A copy of this kind.
    pub fn duplicate(&self) -> (copy: Type)
        ensures
            copy == *self,
    {
        match self {
            Type::LeftParen => Type::LeftParen,
            Type::RightParen => Type::RightParen,
            Type::LeftBrace => Type::LeftBrace,
            Type::RightBrace => Type::RightBrace,
            Type::Comma => Type::Comma,
            Type::Dot => Type::Dot,
            Type::Minus => Type::Minus,
            Type::Plus => Type::Plus,
            Type::Semicolon => Type::Semicolon,
            Type::Slash => Type::Slash,
            Type::Star => Type::Star,
            Type::Bang => Type::Bang,
            Type::BangEqual => Type::BangEqual,
            Type::Equal => Type::Equal,
            Type::EqualEqual => Type::EqualEqual,
            Type::Greater => Type::Greater,
            Type::GreaterEqual => Type::GreaterEqual,
            Type::Less => Type::Less,
            Type::LessEqual => Type::LessEqual,
            Type::Identifier => Type::Identifier,
            Type::String(s) => Type::String(s.clone()),
            Type::Number(n) => Type::Number(n.clone()),
            Type::And => Type::And,
            Type::Class => Type::Class,
            Type::Else => Type::Else,
            Type::False => Type::False,
            Type::Fun => Type::Fun,
            Type::For => Type::For,
            Type::If => Type::If,
            Type::Nil => Type::Nil,
            Type::Or => Type::Or,
            Type::Print => Type::Print,
            Type::Return => Type::Return,
            Type::Super => Type::Super,
            Type::This => Type::This,
            Type::True => Type::True,
            Type::Var => Type::Var,
            Type::While => Type::While,
            Type::EOF => Type::EOF,
        }
    }

    /// The constant that a literal token stands for.
    pub fn to_value(self) -> (value: Literal)
        requires
            is_literal(self@),
        ensures
            value@ == literal_of(self@),
    {
        match self {
            Type::String(s) => Literal::String(s),
            Type::Number(n) => Literal::Number(n),
            Type::False => Literal::False,
            Type::True => Literal::True,
            _ => Literal::Nil,
        }
    }
}

/// A token: its kind, the source text it was scanned from, and the line on
/// which it ends.
#[derive(Debug, Clone, PartialEq)]
pub struct Token {
    token_type: Type,
    lexeme: String,
    line: usize,
}

/// The mathematical view of a token.
pub struct TokenView {
    pub token_type: TypeView,
    pub lexeme: Seq<char>,
    pub line: usize,
}

impl View for Token {
    type V = TokenView;

    closed spec fn view(&self) -> TokenView {
        TokenView { token_type: self.token_type@, lexeme: self.lexeme@, line: self.line }
    }
}

impl Token {
    /// A token from its three parts.
    pub fn new(token_type: Type, lexeme: String, line: usize) -> (token: Token)
        ensures
            token@ == (TokenView { token_type: token_type@, lexeme: lexeme@, line }),
    {
        Token { token_type, lexeme, line }
    }

    /// The source text that the token was scanned from.
    pub fn lexeme(&self) -> (lexeme: &str)
        ensures
            lexeme@ == self@.lexeme,
    {
        self.lexeme.as_str()
    }

    /// The token's text, as an owned string that can be borrowed.
    pub fn name(&self) -> (name: &String)
        ensures
            name@ == self@.lexeme,
    {
        &self.lexeme
    }

    /// The kind of the token.
    pub fn token_type(&self) -> (token_type: &Type)
        ensures
            token_type@ == self@.token_type,
    {
        &self.token_type
    }

    /// The line on which the token ends.
    pub fn line(&self) -> (line: usize)
        ensures
            line == self@.line,
    {
        self.line
    }

    /// A copy of this token.
    pub fn duplicate(&self) -> (copy: Token)
        ensures
            copy == *self,
    {
        Token {
            token_type: self.token_type.duplicate(),
            lexeme: self.lexeme.clone(),
            line: self.line,
        }
    }
}

/// The views of a list of tokens.
pub open spec fn tokens_view(tokens: Seq<Token>) -> Seq<TokenView> {
    Seq::new(tokens.len(), |i: int| tokens[i]@)
}

} // verus!
