use vstd::prelude::*;
use crate::text::{alphabetic, alphanumeric};
use crate::token::{LexError, TokenType, TokenView};

verus! {

pub open spec fn is_digit(c: char) -> bool {
    '0' <= c && c <= '9'
}

pub open spec fn starts_identifier(c: char) -> bool {
    alphabetic(c) || c == '_'
}

pub open spec fn continues_identifier(c: char) -> bool {
    alphanumeric(c) || c == '_'
}

/// The classes of characters that a sub-scan runs over.
pub enum Run {
    Digits,
    IdentifierChars,
    NotNewline,
    NotQuote,
}

pub open spec fn in_run(r: Run, c: char) -> bool {
    match r {
        Run::Digits => is_digit(c),
        Run::IdentifierChars => continues_identifier(c),
        Run::NotNewline => c != '\n',
        Run::NotQuote => c != '"',
    }
}

/// The end of the longest run of `r` characters that starts at `i`.
pub open spec fn run_end(src: Seq<char>, i: int, r: Run) -> int
    decreases src.len() - i,
{
    if 0 <= i < src.len() && in_run(r, src[i]) {
        run_end(src, i + 1, r)
    } else {
        i
    }
}

/// The number of line breaks in `s`.
pub open spec fn newlines(s: Seq<char>) -> nat
    decreases s.len(),
{
    if s.len() == 0 {
        0
    } else {
        newlines(s.drop_last()) + if s.last() == '\n' {
            1nat
        } else {
            0nat
        }
    }
}

/// The reserved word spelt by `s`, if any (exact, case-sensitive).
pub open spec fn keyword(s: Seq<char>) -> Option<TokenType> {
    if s == seq!['a', 'n', 'd'] {
        Some(TokenType::And)
    } else if s == seq!['c', 'l', 'a', 's', 's'] {
        Some(TokenType::Class)
    } else if s == seq!['e', 'l', 's', 'e'] {
        Some(TokenType::Else)
    } else if s == seq!['f', 'a', 'l', 's', 'e'] {
        Some(TokenType::False)
    } else if s == seq!['f', 'o', 'r'] {
        Some(TokenType::For)
    } else if s == seq!['f', 'u', 'n'] {
        Some(TokenType::Fun)
    } else if s == seq!['i', 'f'] {
        Some(TokenType::If)
    } else if s == seq!['n', 'i', 'l'] {
        Some(TokenType::Nil)
    } else if s == seq!['o', 'r'] {
        Some(TokenType::Or)
    } else if s == seq!['p', 'r', 'i', 'n', 't'] {
        Some(TokenType::Print)
    } else if s == seq!['r', 'e', 't', 'u', 'r', 'n'] {
        Some(TokenType::Return)
    } else if s == seq!['s', 'u', 'p', 'e', 'r'] {
        Some(TokenType::Super)
    } else if s == seq!['t', 'h', 'i', 's'] {
        Some(TokenType::This)
    } else if s == seq!['t', 'r', 'u', 'e'] {
        Some(TokenType::True)
    } else if s == seq!['v', 'a', 'r'] {
        Some(TokenType::Var)
    } else if s == seq!['w', 'h', 'i', 'l', 'e'] {
        Some(TokenType::While)
    } else {
        None
    }
}

/// What one dispatch of the scanner does: where it leaves the cursor and the
/// line counter, and the token or error it records, if any.
pub struct Step {
    pub next: int,
    pub line: nat,
    pub token: Option<TokenView>,
    pub error: Option<LexError>,
}

pub open spec fn token_of(
    src: Seq<char>,
    start: int,
    end: int,
    kind: TokenType,
    literal: Option<Seq<char>>,
    line: nat,
) -> TokenView {
    TokenView { kind, lexeme: src.subrange(start, end), literal, line }
}

/// A step that emits a token spanning `src[start..end]`.
pub open spec fn emit(src: Seq<char>, start: int, end: int, kind: TokenType, line: nat) -> Step {
    Step { next: end, line, token: Some(token_of(src, start, end, kind, None, line)), error: None }
}

/// A step that emits nothing.
pub open spec fn skip(next: int, line: nat) -> Step {
    Step { next, line, token: None, error: None }
}

/// `one`, or `two` where the next character is `=`.
pub open spec fn one_or_two(
    src: Seq<char>,
    pos: int,
    line: nat,
    one: TokenType,
    two: TokenType,
) -> Step {
    if pos + 1 < src.len() && src[pos + 1] == '=' {
        emit(src, pos, pos + 2, two, line)
    } else {
        emit(src, pos, pos + 1, one, line)
    }
}

/// A string literal opened by the quote at `pos`.
pub open spec fn string_step(src: Seq<char>, pos: int, line: nat) -> Step {
    let close = run_end(src, pos + 1, Run::NotQuote);
    if close >= src.len() {
        Step {
            next: src.len() as int,
            line: line + newlines(src.subrange(pos + 1, src.len() as int)),
            token: None,
            error: Some(LexError::UnterminatedString { line: line as usize }),
        }
    } else {
        Step {
            next: close + 1,
            line: line + newlines(src.subrange(pos + 1, close)),
            token: Some(
                token_of(
                    src,
                    pos,
                    close + 1,
                    TokenType::StringLiteral,
                    Some(src.subrange(pos + 1, close)),
                    line,
                ),
            ),
            error: None,
        }
    }
}

/// The end of the number literal whose first digit is at `pos`.
pub open spec fn number_end(src: Seq<char>, pos: int) -> int {
    let whole = run_end(src, pos + 1, Run::Digits);
    if whole + 1 < src.len() && src[whole] == '.' && is_digit(src[whole + 1]) {
        run_end(src, whole + 1, Run::Digits)
    } else {
        whole
    }
}

pub open spec fn number_step(src: Seq<char>, pos: int, line: nat) -> Step {
    let end = number_end(src, pos);
    Step {
        next: end,
        line,
        token: Some(
            token_of(
                src,
                pos,
                end,
                TokenType::NumberLiteral,
                Some(src.subrange(pos, end)),
                line,
            ),
        ),
        error: None,
    }
}

pub open spec fn identifier_step(src: Seq<char>, pos: int, line: nat) -> Step {
    let end = run_end(src, pos + 1, Run::IdentifierChars);
    let kind = match keyword(src.subrange(pos, end)) {
        Some(k) => k,
        None => TokenType::Identifier,
    };
    emit(src, pos, end, kind, line)
}

/// One dispatch on the character at `pos`.
pub open spec fn step(src: Seq<char>, pos: int, line: nat) -> Step {
    let c = src[pos];
    if c == '(' {
        emit(src, pos, pos + 1, TokenType::LeftParen, line)
    } else if c == ')' {
        emit(src, pos, pos + 1, TokenType::RightParen, line)
    } else if c == '{' {
        emit(src, pos, pos + 1, TokenType::LeftBrace, line)
    } else if c == '}' {
        emit(src, pos, pos + 1, TokenType::RightBrace, line)
    } else if c == ',' {
        emit(src, pos, pos + 1, TokenType::Comma, line)
    } else if c == '.' {
        emit(src, pos, pos + 1, TokenType::Dot, line)
    } else if c == '-' {
        emit(src, pos, pos + 1, TokenType::Minus, line)
    } else if c == '+' {
        emit(src, pos, pos + 1, TokenType::Plus, line)
    } else if c == ';' {
        emit(src, pos, pos + 1, TokenType::Semicolon, line)
    } else if c == '*' {
        emit(src, pos, pos + 1, TokenType::Star, line)
    } else if c == '!' {
        one_or_two(src, pos, line, TokenType::Bang, TokenType::BangEqual)
    } else if c == '=' {
        one_or_two(src, pos, line, TokenType::Equal, TokenType::EqualEqual)
    } else if c == '<' {
        one_or_two(src, pos, line, TokenType::Less, TokenType::LessEqual)
    } else if c == '>' {
        one_or_two(src, pos, line, TokenType::Greater, TokenType::GreaterEqual)
    } else if c == '/' {
        if pos + 1 < src.len() && src[pos + 1] == '/' {
            skip(run_end(src, pos + 2, Run::NotNewline), line)
        } else {
            emit(src, pos, pos + 1, TokenType::Slash, line)
        }
    } else if c == ' ' || c == '\r' || c == '\t' {
        skip(pos + 1, line)
    } else if c == '\n' {
        skip(pos + 1, line + 1)
    } else if c == '"' {
        string_step(src, pos, line)
    } else if is_digit(c) {
        number_step(src, pos, line)
    } else if starts_identifier(c) {
        identifier_step(src, pos, line)
    } else {
        Step {
            next: pos + 1,
            line,
            token: None,
            error: Some(LexError::UnexpectedCharacter { line: line as usize }),
        }
    }
}

pub open spec fn end_token(line: nat) -> TokenView {
    TokenView { kind: TokenType::EndOfInput, lexeme: Seq::empty(), literal: None, line }
}

/// The one value in `x`, or nothing.
pub open spec fn as_seq<T>(x: Option<T>) -> Seq<T> {
    match x {
        Some(v) => seq![v],
        None => Seq::empty(),
    }
}

/// The tokens and errors of the source from `pos` on, with the line counter at `line`.
pub open spec fn lex_from(src: Seq<char>, pos: int, line: nat) -> (Seq<TokenView>, Seq<LexError>)
    decreases src.len() - pos,
{
    if 0 <= pos < src.len() {
        let s = step(src, pos, line);
        proof {
            lemma_step_bounds(src, pos, line);
        }
        let rest = lex_from(src, s.next, s.line);
        (as_seq(s.token) + rest.0, as_seq(s.error) + rest.1)
    } else {
        (seq![end_token(line)], Seq::empty())
    }
}

/// The tokens and errors of a whole source text.
pub open spec fn lex(src: Seq<char>) -> (Seq<TokenView>, Seq<LexError>) {
    lex_from(src, 0, 1)
}

pub proof fn lemma_run_end_bounds(src: Seq<char>, i: int, r: Run)
    requires
        0 <= i <= src.len(),
    ensures
        i <= run_end(src, i, r) <= src.len(),
        forall|j: int| i <= j < run_end(src, i, r) ==> in_run(r, #[trigger] src[j]),
        run_end(src, i, r) < src.len() ==> !in_run(r, src[run_end(src, i, r)]),
    decreases src.len() - i,
{
    if i < src.len() && in_run(r, src[i]) {
        lemma_run_end_bounds(src, i + 1, r);
    }
}

pub proof fn lemma_newlines_extend(src: Seq<char>, a: int, b: int)
    requires
        0 <= a <= b < src.len(),
    ensures
        newlines(src.subrange(a, b + 1)) == newlines(src.subrange(a, b)) + if src[b] == '\n' {
            1nat
        } else {
            0nat
        },
{
    assert(src.subrange(a, b + 1).drop_last() =~= src.subrange(a, b));
}

pub proof fn lemma_newlines_le(s: Seq<char>)
    ensures
        newlines(s) <= s.len(),
    decreases s.len(),
{
    if s.len() > 0 {
        lemma_newlines_le(s.drop_last());
    }
}

pub proof fn lemma_step_bounds(src: Seq<char>, pos: int, line: nat)
    requires
        0 <= pos < src.len(),
    ensures
        pos < step(src, pos, line).next <= src.len(),
        step(src, pos, line).line >= line,
{
    lemma_run_end_bounds(src, pos + 1, Run::NotQuote);
    lemma_run_end_bounds(src, pos + 1, Run::Digits);
    lemma_run_end_bounds(src, pos + 1, Run::IdentifierChars);
    if pos + 2 <= src.len() {
        lemma_run_end_bounds(src, pos + 2, Run::NotNewline);
    }
    let whole = run_end(src, pos + 1, Run::Digits);
    if whole + 1 < src.len() {
        lemma_run_end_bounds(src, whole + 1, Run::Digits);
    }
}

} // verus!
