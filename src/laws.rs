use vstd::prelude::*;
use crate::model::{
    in_run, is_digit, lemma_run_end_bounds, lemma_step_bounds, run_end, Run, lex, lex_from, starts_identifier, step, token_of,
};
use crate::token::LexError;
use crate::token::TokenType;

verus! {

proof fn lemma_end_of_input_from(src: Seq<char>, pos: int, line: nat)
    ensures
        lex_from(src, pos, line).0.len() >= 1,
        lex_from(src, pos, line).0.last().kind == TokenType::EndOfInput,
        forall|i: int|
            0 <= i < lex_from(src, pos, line).0.len() - 1 ==> (#[trigger] lex_from(
                src,
                pos,
                line,
            ).0[i]).kind != TokenType::EndOfInput,
    decreases src.len() - pos,
{
    if 0 <= pos < src.len() {
        let s = step(src, pos, line);
        lemma_step_bounds(src, pos, line);
        lemma_end_of_input_from(src, s.next, s.line);
        let rest = lex_from(src, s.next, s.line).0;
        let all = lex_from(src, pos, line).0;
        if s.token is Some {
            assert(s.token->0.kind != TokenType::EndOfInput);
            assert forall|i: int| 0 <= i < all.len() - 1 implies (#[trigger] all[i]).kind
                != TokenType::EndOfInput by {
                if i > 0 {
                    assert(all[i] == rest[i - 1]);
                }
            }
        } else {
            assert(all =~= rest);
        }
    }
}

/// Every token sequence ends with exactly one `EndOfInput`: the last token is
/// one, and no other token is, whatever the source text.
pub proof fn ends_with_one_end_of_input(src: Seq<char>)
    ensures
        lex(src).0.len() >= 1,
        lex(src).0.last().kind == TokenType::EndOfInput,
        forall|i: int|
            0 <= i < lex(src).0.len() - 1 ==> (#[trigger] lex(src).0[i]).kind
                != TokenType::EndOfInput,
{
    lemma_end_of_input_from(src, 0, 1);
}

/// The two-character operator of `!`, `=`, `<` or `>`.
pub open spec fn with_equal(c: char) -> TokenType {
    if c == '!' {
        TokenType::BangEqual
    } else if c == '=' {
        TokenType::EqualEqual
    } else if c == '<' {
        TokenType::LessEqual
    } else {
        TokenType::GreaterEqual
    }
}

/// Maximal munch: where `!`, `=`, `<` or `>` is followed by `=`, the two
/// characters form one two-character operator token, and scanning goes on
/// after both of them.
pub proof fn two_character_operator_preferred(src: Seq<char>, pos: int, line: nat)
    requires
        0 <= pos,
        pos + 1 < src.len(),
        src[pos] == '!' || src[pos] == '=' || src[pos] == '<' || src[pos] == '>',
        src[pos + 1] == '=',
    ensures
        lex_from(src, pos, line).0[0] == token_of(
            src,
            pos,
            pos + 2,
            with_equal(src[pos]),
            None,
            line,
        ),
        lex_from(src, pos, line).0.drop_first() == lex_from(src, pos + 2, line).0,
        lex_from(src, pos, line).1 == lex_from(src, pos + 2, line).1,
{
    let rest = lex_from(src, pos + 2, line);
    assert(lex_from(src, pos, line).0.drop_first() =~= rest.0);
    assert(lex_from(src, pos, line).1 =~= rest.1);
}

/// The characters that the scanner dispatches on by name: punctuation,
/// operators, blanks, line breaks and the quote.
pub open spec fn dispatched(c: char) -> bool {
    c == '(' || c == ')' || c == '{' || c == '}' || c == ',' || c == '.' || c == '-' || c == '+'
        || c == ';' || c == '*' || c == '!' || c == '=' || c == '<' || c == '>' || c == '/' || c
        == ' ' || c == '\r' || c == '\t' || c == '\n' || c == '"'
}

/// A character that starts no token, comment or blank adds exactly one
/// `UnexpectedCharacter` error at the current line and no token, and scanning
/// resumes at the next character.
pub proof fn unexpected_character_is_recoverable(src: Seq<char>, pos: int, line: nat)
    requires
        0 <= pos < src.len(),
        !dispatched(src[pos]),
        !is_digit(src[pos]),
        !starts_identifier(src[pos]),
    ensures
        lex_from(src, pos, line).0 == lex_from(src, pos + 1, line).0,
        lex_from(src, pos, line).1 == seq![LexError::UnexpectedCharacter { line: line as usize }]
            + lex_from(src, pos + 1, line).1,
{
    assert(lex_from(src, pos, line).0 =~= lex_from(src, pos + 1, line).0);
}

/// A `//` comment runs up to the next line break, or to the end of the
/// source: it yields no token and no error, leaves the line counter as it was,
/// and scanning resumes at that line break (which is not part of the comment).
pub proof fn comment_is_skipped(src: Seq<char>, pos: int, line: nat)
    requires
        0 <= pos,
        pos + 1 < src.len(),
        src[pos] == '/',
        src[pos + 1] == '/',
    ensures
        ({
            let end = run_end(src, pos + 2, Run::NotNewline);
            &&& pos + 2 <= end <= src.len()
            &&& forall|j: int| pos + 2 <= j < end ==> #[trigger] src[j] != '\n'
            &&& end < src.len() ==> src[end] == '\n'
            &&& lex_from(src, pos, line) == lex_from(src, end, line)
        }),
{
    let end = run_end(src, pos + 2, Run::NotNewline);
    lemma_run_end_bounds(src, pos + 2, Run::NotNewline);
    assert forall|j: int| pos + 2 <= j < end implies #[trigger] src[j] != '\n' by {
        assert(in_run(Run::NotNewline, src[j]));
    }
    let rest = lex_from(src, end, line);
    assert(lex_from(src, pos, line).0 =~= rest.0);
    assert(lex_from(src, pos, line).1 =~= rest.1);
}

/// Lexing is a function of the source text: the same text always gives the
/// same tokens and the same errors.
pub proof fn lexing_is_deterministic(a: Seq<char>, b: Seq<char>)
    requires
        a == b,
    ensures
        lex(a) == lex(b),
{
}

} // verus!
