//! Tokens, the errors of scanning, and their mathematical views.

use vstd::prelude::*;

verus! {

/// Why a number's text does not read as a number.
#[derive(Debug, PartialEq, Eq, Clone, Copy)]
pub enum NumberError {
    /// The text is empty.
    Empty,
    /// The text is not empty and is not a decimal number.
    Invalid,
}

/// Possible errors from attempting to scan JSON text.
#[derive(Debug, PartialEq, Eq, Clone, Copy)]
pub enum TokenizeError {
    /// A character differs from the one that `null`, `true` or `false` has at
    /// its place, or the input ends inside the word.
    UnfinishedLiteralValue,
    /// The text gathered for a number does not read as a number.
    ParseNumberError(NumberError),
    /// The input ends inside a string, before its closing quote.
    UnclosedQuotes,
    /// The input ends where a token was looked for.
    UnexpectedEof,
    /// The character starts no token.
    CharNotRecognized(char),
}

/// An atomic lexical unit of JSON syntax.
#[derive(Debug, PartialEq, Eq)]
pub enum Token {
    /// `{`
    LeftBrace,
    /// `}`
    RightBrace,
    /// `[`
    LeftBracket,
    /// `]`
    RightBracket,
    /// `,`
    Comma,
    /// `:`
    Colon,
    /// `null`
    Null,
    /// `false`
    False,
    /// `true`
    True,
    /// Any number literal, as the characters it was written with.
    Number(String),
    /// Key of a key/value pair or string value: the characters between the
    /// quotes, unchanged.
    String(String),
}

/// The mathematical value of a [`Token`]: text is a sequence of characters.
pub enum TokenView {
    LeftBrace,
    RightBrace,
    LeftBracket,
    RightBracket,
    Comma,
    Colon,
    Null,
    False,
    True,
    Number(Seq<char>),
    String(Seq<char>),
}

impl View for Token {
    type V = TokenView;

    open spec fn view(&self) -> TokenView {
        match *self {
            Token::LeftBrace => TokenView::LeftBrace,
            Token::RightBrace => TokenView::RightBrace,
            Token::LeftBracket => TokenView::LeftBracket,
            Token::RightBracket => TokenView::RightBracket,
            Token::Comma => TokenView::Comma,
            Token::Colon => TokenView::Colon,
            Token::Null => TokenView::Null,
            Token::False => TokenView::False,
            Token::True => TokenView::True,
            Token::Number(text) => TokenView::Number(text@),
            Token::String(text) => TokenView::String(text@),
        }
    }
}

impl DeepView for Token {
    type V = TokenView;

    open spec fn deep_view(&self) -> TokenView {
        self@
    }
}

impl Clone for Token {
    /// A token equal to this one.
    fn clone(&self) -> (token: Token)
        ensures
            token == *self,
    {
        match self {
            Token::LeftBrace => Token::LeftBrace,
            Token::RightBrace => Token::RightBrace,
            Token::LeftBracket => Token::LeftBracket,
            Token::RightBracket => Token::RightBracket,
            Token::Comma => Token::Comma,
            Token::Colon => Token::Colon,
            Token::Null => Token::Null,
            Token::False => Token::False,
            Token::True => Token::True,
            Token::Number(text) => Token::Number(text.clone()),
            Token::String(text) => Token::String(text.clone()),
        }
    }
}

impl Token {
    /// A string token that holds the characters of `input`.
    pub fn string(input: &str) -> (token: Token)
        ensures
            token@ == TokenView::String(input@),
    {
        Token::String(String::from_str(input))
    }
}

/// The view of what scanning one token returned.
pub open spec fn token_outcome(r: Result<Token, TokenizeError>) -> Result<TokenView, TokenizeError> {
    match r {
        Ok(token) => Ok(token@),
        Err(e) => Err(e),
    }
}

/// The view of what scanning a whole text returned.
pub open spec fn tokens_outcome(r: Result<Vec<Token>, TokenizeError>) -> Result<
    Seq<TokenView>,
    TokenizeError,
> {
    match r {
        Ok(tokens) => Ok(tokens.deep_view()),
        Err(e) => Err(e),
    }
}

} // verus!
