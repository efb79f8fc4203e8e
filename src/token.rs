use vstd::prelude::*;

verus! {

/// One scanned token: where it starts and stops in the source (as char
/// positions) and the text it covers.
#[derive(Clone, Debug)]
pub struct Token {
    pub start: usize,
    pub stop: usize,
    pub lexeme: String,
}

/// What the scanner hands out on each call: the kind of token, the line it was
/// found on, and either the token itself or a lexical error message.
#[derive(Debug)]
pub struct TokenResult {
    pub line: i32,
    pub token_type: TokenType,
    pub data: Result<Token, String>,
}

impl TokenResult {
    /// The placeholder that stands before anything has been scanned.
    pub fn invalid() -> (r: TokenResult)
        ensures
            r.line == -1,
            r.token_type == TokenType::Error,
            r.data is Err,
            r.data->Err_0@ == "Invalid"@,
    {
        TokenResult { line: -1, token_type: TokenType::Error, data: Err(String::from_str("Invalid")) }
    }
}

#[derive(PartialEq, Eq, Structural, Debug, Clone, Copy)]
pub enum TokenType {
    // Single-character tokens.
    LeftParen,
    RightParen,
    LeftBrace,
    RightBrace,
    Comma,
    Dot,
    Minus,
    Plus,
    Semicolon,
    Slash,
    Star,
    // One or two character tokens.
    Bang,
    BangEqual,
    Equal,
    EqualEqual,
    Greater,
    GreaterEqual,
    Less,
    LessEqual,
    // Literals.
    Identifier,
    String,
    Number,
    // Keywords.
    And,
    Class,
    Else,
    False,
    For,
    Fun,
    If,
    Nil,
    Or,
    Print,
    Return,
    Super,
    This,
    True,
    Var,
    While,
    Error,
    Eof,
}

} // verus!
