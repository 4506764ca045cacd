use vstd::prelude::*;

verus! {

/// The kind of a lexical unit.
#[derive(Clone, Copy, Debug, PartialEq, Eq, Structural)]
pub enum TokenType {
    // Single-character punctuation.
    LeftParen,
    RightParen,
    LeftBrace,
    RightBrace,
    Comma,
    Dot,
    Minus,
    Plus,
    Semicolon,
    Slash,
    Star,
    // One- or two-character operators.
    Bang,
    BangEqual,
    Equal,
    EqualEqual,
    Greater,
    GreaterEqual,
    Less,
    LessEqual,
    // Literals. The value of a string or number literal is carried by the
    // token's `literal` field.
    Identifier,
    StringLiteral,
    NumberLiteral,
    // Reserved words.
    And,
    Class,
    Else,
    False,
    Fun,
    For,
    If,
    Nil,
    Or,
    Print,
    Return,
    Super,
    This,
    True,
    Var,
    While,
    // Sentinel that closes every token sequence.
    EndOfInput,
}

/// One lexical unit of the source.
///
/// `literal` holds the value of a literal token: for a string literal the text
/// between the quotes, for a number literal its decimal text (digits, and an
/// optional `.` followed by digits). It is `None` for every other kind.
#[derive(Clone, Debug)]
pub struct Token {
    pub token_type: TokenType,
    pub lexeme: String,
    pub literal: Option<String>,
    pub line: usize,
}

/// The mathematical value of a [`Token`].
pub struct TokenView {
    pub kind: TokenType,
    pub lexeme: Seq<char>,
    pub literal: Option<Seq<char>>,
    pub line: nat,
}

pub open spec fn literal_view(l: Option<String>) -> Option<Seq<char>> {
    match l {
        Some(s) => Some(s@),
        None => None,
    }
}

impl View for Token {
    type V = TokenView;

    open spec fn view(&self) -> TokenView {
        TokenView {
            kind: self.token_type,
            lexeme: self.lexeme@,
            literal: literal_view(self.literal),
            line: self.line as nat,
        }
    }
}

/// The views of a sequence of tokens, in order.
pub open spec fn token_views(ts: Seq<Token>) -> Seq<TokenView> {
    ts.map_values(|t: Token| t@)
}

impl Token {
    /// A token without a literal value.
    pub fn new(token_type: TokenType, lexeme: String, line: usize) -> (r: Self)
        ensures
            r.token_type == token_type,
            r.lexeme@ == lexeme@,
            r.literal is None,
            r.line == line,
    {
        Token { token_type, lexeme, literal: None, line }
    }

    /// A token that carries a literal value.
    pub fn with_literal(token_type: TokenType, lexeme: String, literal: String, line: usize) -> (r:
        Self)
        ensures
            r.token_type == token_type,
            r.lexeme@ == lexeme@,
            r.literal == Some(literal),
            r.line == line,
    {
        Token { token_type, lexeme, literal: Some(literal), line }
    }
}

/// A recoverable lexical error, with the 1-based line it was found on.
#[derive(Clone, Copy, Debug, PartialEq, Eq, Structural)]
pub enum LexError {
    /// A character that starts no token.
    UnexpectedCharacter { line: usize },
    /// A string literal whose closing quote never came; `line` is where it opened.
    UnterminatedString { line: usize },
}

impl LexError {
    pub fn line(&self) -> (r: usize)
        ensures
            r == match *self {
                LexError::UnexpectedCharacter { line } => line,
                LexError::UnterminatedString { line } => line,
            },
    {
        match *self {
            LexError::UnexpectedCharacter { line } => line,
            LexError::UnterminatedString { line } => line,
        }
    }

    /// A human-readable description of the error.
    pub fn message(&self) -> (r: &'static str)
        ensures
            self is UnexpectedCharacter ==> r@ == "Unexpected character."@,
            self is UnterminatedString ==> r@ == "Unterminated string."@,
    {
        match *self {
            LexError::UnexpectedCharacter { .. } => "Unexpected character.",
            LexError::UnterminatedString { .. } => "Unterminated string.",
        }
    }
}

} // verus!
