use vstd::prelude::*;

verus! {

/// The reserved words of the language. Matching against them ignores case.
#[derive(Clone, Copy, Debug, PartialEq, Eq, Structural)]
pub enum Keyword {
    Select,
    From,
    Where,
    Create,
    Table,
    Order,
    By,
    Asc,
    Desc,
    And,
    Or,
    Not,
    True,
    False,
    Primary,
    Key,
    Check,
    Int,
    Bool,
    Varchar,
    Null,
}

/// One lexical unit of the input.
#[derive(Clone, Debug, PartialEq, Eq)]
pub enum Token {
    /// End of input; never part of a scanned sequence, but what a parser sees past its last token.
    Eof,
    Identifier(String),
    Number(u64),
    /// A run of digits whose value does not fit in `u64`.
    NumberTooLarge,
    String(String),
    Keyword(Keyword),
    Plus,
    Minus,
    Star,
    Divide,
    LeftParentheses,
    RightParentheses,
    Comma,
    Semicolon,
    Equal,
    NotEqual,
    LessThan,
    GreaterThan,
    LessThanOrEqual,
    GreaterThanOrEqual,
    /// A character that starts no token, or the opening quote of an unterminated string.
    Invalid(char),
}

/// A token with its text payloads seen as character sequences.
pub enum TokenView {
    Eof,
    Identifier(Seq<char>),
    Number(u64),
    NumberTooLarge,
    String(Seq<char>),
    Keyword(Keyword),
    Plus,
    Minus,
    Star,
    Divide,
    LeftParentheses,
    RightParentheses,
    Comma,
    Semicolon,
    Equal,
    NotEqual,
    LessThan,
    GreaterThan,
    LessThanOrEqual,
    GreaterThanOrEqual,
    Invalid(char),
}

impl View for Token {
    type V = TokenView;

    open spec fn view(&self) -> TokenView {
        match self {
            Token::Eof => TokenView::Eof,
            Token::Identifier(s) => TokenView::Identifier(s@),
            Token::Number(n) => TokenView::Number(*n),
            Token::NumberTooLarge => TokenView::NumberTooLarge,
            Token::String(s) => TokenView::String(s@),
            Token::Keyword(k) => TokenView::Keyword(*k),
            Token::Plus => TokenView::Plus,
            Token::Minus => TokenView::Minus,
            Token::Star => TokenView::Star,
            Token::Divide => TokenView::Divide,
            Token::LeftParentheses => TokenView::LeftParentheses,
            Token::RightParentheses => TokenView::RightParentheses,
            Token::Comma => TokenView::Comma,
            Token::Semicolon => TokenView::Semicolon,
            Token::Equal => TokenView::Equal,
            Token::NotEqual => TokenView::NotEqual,
            Token::LessThan => TokenView::LessThan,
            Token::GreaterThan => TokenView::GreaterThan,
            Token::LessThanOrEqual => TokenView::LessThanOrEqual,
            Token::GreaterThanOrEqual => TokenView::GreaterThanOrEqual,
            Token::Invalid(c) => TokenView::Invalid(*c),
        }
    }
}

/// A token that a parser can require: one without a text payload, and not the end marker.
pub open spec fn is_plain(t: Token) -> bool {
    !(t is Identifier) && !(t is String) && !(t is Eof)
}

/// A copy of a token, equal to it.
pub fn copy_token(t: &Token) -> (r: Token)
    ensures
        r == *t,
{
    match t {
        Token::Identifier(s) => Token::Identifier(s.clone()),
        Token::String(s) => Token::String(s.clone()),
        Token::Eof => Token::Eof,
        Token::Number(n) => Token::Number(*n),
        Token::NumberTooLarge => Token::NumberTooLarge,
        Token::Keyword(k) => Token::Keyword(*k),
        Token::Plus => Token::Plus,
        Token::Minus => Token::Minus,
        Token::Star => Token::Star,
        Token::Divide => Token::Divide,
        Token::LeftParentheses => Token::LeftParentheses,
        Token::RightParentheses => Token::RightParentheses,
        Token::Comma => Token::Comma,
        Token::Semicolon => Token::Semicolon,
        Token::Equal => Token::Equal,
        Token::NotEqual => Token::NotEqual,
        Token::LessThan => Token::LessThan,
        Token::GreaterThan => Token::GreaterThan,
        Token::LessThanOrEqual => Token::LessThanOrEqual,
        Token::GreaterThanOrEqual => Token::GreaterThanOrEqual,
        Token::Invalid(c) => Token::Invalid(*c),
    }
}

/// Whether `t` is the token `expected`, for an `expected` without a text payload.
pub fn is_token(t: &Token, expected: &Token) -> (r: bool)
    requires
        is_plain(*expected),
    ensures
        r == (*t == *expected),
{
    match (t, expected) {
        (Token::Eof, Token::Eof) => true,
        (Token::Number(a), Token::Number(b)) => *a == *b,
        (Token::NumberTooLarge, Token::NumberTooLarge) => true,
        (Token::Keyword(a), Token::Keyword(b)) => *a == *b,
        (Token::Plus, Token::Plus) => true,
        (Token::Minus, Token::Minus) => true,
        (Token::Star, Token::Star) => true,
        (Token::Divide, Token::Divide) => true,
        (Token::LeftParentheses, Token::LeftParentheses) => true,
        (Token::RightParentheses, Token::RightParentheses) => true,
        (Token::Comma, Token::Comma) => true,
        (Token::Semicolon, Token::Semicolon) => true,
        (Token::Equal, Token::Equal) => true,
        (Token::NotEqual, Token::NotEqual) => true,
        (Token::LessThan, Token::LessThan) => true,
        (Token::GreaterThan, Token::GreaterThan) => true,
        (Token::LessThanOrEqual, Token::LessThanOrEqual) => true,
        (Token::GreaterThanOrEqual, Token::GreaterThanOrEqual) => true,
        (Token::Invalid(a), Token::Invalid(b)) => *a == *b,
        _ => false,
    }
}

} // verus!
