use vstd::prelude::*;

verus! {

/// One lexical unit produced by the scanner.
///
/// Only `Identifier`, `Integer` and `Illegal` carry a payload: the exact
/// bytes of the input that produced them.
#[derive(PartialEq, Eq, Debug)]
pub enum Token {
    Assign,
    Plus,
    Minus,
    Asterisk,
    Slash,
    Pow,
    Bang,
    Equal,
    NotEqual,
    LessThan,
    LessThanOrEqual,
    GreaterThan,
    GreaterThanOrEqual,
    Comma,
    Semicolon,
    LeftParen,
    RightParen,
    LeftBrace,
    RightBrace,
    Function,
    Let,
    True,
    False,
    If,
    Else,
    Return,
    Identifier(Vec<u8>),
    Integer(Vec<u8>),
    Illegal(Vec<u8>),
}

/// The mathematical value of a [`Token`]: the same variants, with the
/// payload bytes as a sequence.
pub enum SpecToken {
    Assign,
    Plus,
    Minus,
    Asterisk,
    Slash,
    Pow,
    Bang,
    Equal,
    NotEqual,
    LessThan,
    LessThanOrEqual,
    GreaterThan,
    GreaterThanOrEqual,
    Comma,
    Semicolon,
    LeftParen,
    RightParen,
    LeftBrace,
    RightBrace,
    Function,
    Let,
    True,
    False,
    If,
    Else,
    Return,
    Identifier(Seq<u8>),
    Integer(Seq<u8>),
    Illegal(Seq<u8>),
}

impl View for Token {
    type V = SpecToken;

    open spec fn view(&self) -> SpecToken {
        match self {
            Token::Assign => SpecToken::Assign,
            Token::Plus => SpecToken::Plus,
            Token::Minus => SpecToken::Minus,
            Token::Asterisk => SpecToken::Asterisk,
            Token::Slash => SpecToken::Slash,
            Token::Pow => SpecToken::Pow,
            Token::Bang => SpecToken::Bang,
            Token::Equal => SpecToken::Equal,
            Token::NotEqual => SpecToken::NotEqual,
            Token::LessThan => SpecToken::LessThan,
            Token::LessThanOrEqual => SpecToken::LessThanOrEqual,
            Token::GreaterThan => SpecToken::GreaterThan,
            Token::GreaterThanOrEqual => SpecToken::GreaterThanOrEqual,
            Token::Comma => SpecToken::Comma,
            Token::Semicolon => SpecToken::Semicolon,
            Token::LeftParen => SpecToken::LeftParen,
            Token::RightParen => SpecToken::RightParen,
            Token::LeftBrace => SpecToken::LeftBrace,
            Token::RightBrace => SpecToken::RightBrace,
            Token::Function => SpecToken::Function,
            Token::Let => SpecToken::Let,
            Token::True => SpecToken::True,
            Token::False => SpecToken::False,
            Token::If => SpecToken::If,
            Token::Else => SpecToken::Else,
            Token::Return => SpecToken::Return,
            Token::Identifier(b) => SpecToken::Identifier(b@),
            Token::Integer(b) => SpecToken::Integer(b@),
            Token::Illegal(b) => SpecToken::Illegal(b@),
        }
    }
}

/// The model of an optional token.
pub open spec fn opt_view(t: Option<Token>) -> Option<SpecToken> {
    match t {
        Some(t) => Some(t@),
        None => None,
    }
}

/// The model of a sequence of tokens, token by token.
pub open spec fn views(ts: Seq<Token>) -> Seq<SpecToken> {
    ts.map_values(|t: Token| t@)
}

} // verus!
