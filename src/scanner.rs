use vstd::prelude::*;
use crate::model::{
    as_seq, identifier_step, is_digit, keyword, lex, lex_from, newlines, number_step, run_end,
    step, string_step, emit, Run, Step, lemma_newlines_extend, lemma_newlines_le,
    lemma_run_end_bounds, lemma_step_bounds,
};
use crate::laws::ends_with_one_end_of_input;
use crate::text::{decode, is_alphabetic, is_alphanumeric, span_is, text_of};
use crate::token::{token_views, LexError, Token, TokenType, TokenView};

verus! {

/// The reserved word spelt by `src[start..end]`, if any.
pub fn lookup_keyword(src: &Vec<char>, start: usize, end: usize) -> (r: Option<TokenType>)
    requires
        start <= end <= src@.len(),
    ensures
        r == keyword(src@.subrange(start as int, end as int)),
{
    proof {
        assert(['a', 'n', 'd']@ =~= seq!['a', 'n', 'd']);
        assert(['c', 'l', 'a', 's', 's']@ =~= seq!['c', 'l', 'a', 's', 's']);
        assert(['e', 'l', 's', 'e']@ =~= seq!['e', 'l', 's', 'e']);
        assert(['f', 'a', 'l', 's', 'e']@ =~= seq!['f', 'a', 'l', 's', 'e']);
        assert(['f', 'o', 'r']@ =~= seq!['f', 'o', 'r']);
        assert(['f', 'u', 'n']@ =~= seq!['f', 'u', 'n']);
        assert(['i', 'f']@ =~= seq!['i', 'f']);
        assert(['n', 'i', 'l']@ =~= seq!['n', 'i', 'l']);
        assert(['o', 'r']@ =~= seq!['o', 'r']);
        assert(['p', 'r', 'i', 'n', 't']@ =~= seq!['p', 'r', 'i', 'n', 't']);
        assert(['r', 'e', 't', 'u', 'r', 'n']@ =~= seq!['r', 'e', 't', 'u', 'r', 'n']);
        assert(['s', 'u', 'p', 'e', 'r']@ =~= seq!['s', 'u', 'p', 'e', 'r']);
        assert(['t', 'h', 'i', 's']@ =~= seq!['t', 'h', 'i', 's']);
        assert(['t', 'r', 'u', 'e']@ =~= seq!['t', 'r', 'u', 'e']);
        assert(['v', 'a', 'r']@ =~= seq!['v', 'a', 'r']);
        assert(['w', 'h', 'i', 'l', 'e']@ =~= seq!['w', 'h', 'i', 'l', 'e']);
    }
    if span_is(src, start, end, &['a', 'n', 'd']) {
        Some(TokenType::And)
    } else if span_is(src, start, end, &['c', 'l', 'a', 's', 's']) {
        Some(TokenType::Class)
    } else if span_is(src, start, end, &['e', 'l', 's', 'e']) {
        Some(TokenType::Else)
    } else if span_is(src, start, end, &['f', 'a', 'l', 's', 'e']) {
        Some(TokenType::False)
    } else if span_is(src, start, end, &['f', 'o', 'r']) {
        Some(TokenType::For)
    } else if span_is(src, start, end, &['f', 'u', 'n']) {
        Some(TokenType::Fun)
    } else if span_is(src, start, end, &['i', 'f']) {
        Some(TokenType::If)
    } else if span_is(src, start, end, &['n', 'i', 'l']) {
        Some(TokenType::Nil)
    } else if span_is(src, start, end, &['o', 'r']) {
        Some(TokenType::Or)
    } else if span_is(src, start, end, &['p', 'r', 'i', 'n', 't']) {
        Some(TokenType::Print)
    } else if span_is(src, start, end, &['r', 'e', 't', 'u', 'r', 'n']) {
        Some(TokenType::Return)
    } else if span_is(src, start, end, &['s', 'u', 'p', 'e', 'r']) {
        Some(TokenType::Super)
    } else if span_is(src, start, end, &['t', 'h', 'i', 's']) {
        Some(TokenType::This)
    } else if span_is(src, start, end, &['t', 'r', 'u', 'e']) {
        Some(TokenType::True)
    } else if span_is(src, start, end, &['v', 'a', 'r']) {
        Some(TokenType::Var)
    } else if span_is(src, start, end, &['w', 'h', 'i', 'l', 'e']) {
        Some(TokenType::While)
    } else {
        None
    }
}

fn is_digit_char(c: char) -> (r: bool)
    ensures
        r == is_digit(c),
{
    '0' <= c && c <= '9'
}

/// The last token is an `EndOfInput`, and no other token is.
pub open spec fn ends_with_end_of_input(ts: Seq<Token>) -> bool {
    &&& ts.len() >= 1
    &&& ts.last().token_type == TokenType::EndOfInput
    &&& forall|i: int|
        0 <= i < ts.len() - 1 ==> (#[trigger] ts[i]).token_type != TokenType::EndOfInput
}

/// A single-pass cursor over one source text.
pub struct Scanner {
    source: Vec<char>,
    tokens: Vec<Token>,
    errors: Vec<LexError>,
    start: usize,
    current: usize,
    line: usize,
}

/// `after` is `before` with one dispatch `s` applied.
pub open spec fn took_step(before: Scanner, after: Scanner, s: Step) -> bool {
    &&& after.source() == before.source()
    &&& after.cursor() == s.next
    &&& after.line_count() == s.line
    &&& token_views(after.tokens_so_far()) == token_views(before.tokens_so_far()) + as_seq(
        s.token,
    )
    &&& after.errors_so_far() == before.errors_so_far() + as_seq(s.error)
}

impl Scanner {
    /// The characters being scanned.
    pub closed spec fn source(&self) -> Seq<char> {
        self.source@
    }

    /// Offset of the next unread character.
    pub closed spec fn cursor(&self) -> int {
        self.current as int
    }

    /// The current 1-based line.
    pub closed spec fn line_count(&self) -> nat {
        self.line as nat
    }

    /// The tokens recorded so far.
    pub closed spec fn tokens_so_far(&self) -> Seq<Token> {
        self.tokens@
    }

    /// The errors recorded so far.
    pub closed spec fn errors_so_far(&self) -> Seq<LexError> {
        self.errors@
    }

    /// The cursor lies within the source, and the line counter can count every
    /// line break still ahead.
    pub closed spec fn wf(&self) -> bool {
        &&& self.start <= self.current <= self.source@.len() < usize::MAX
        &&& 1 <= self.line <= self.current + 1
    }

    /// What scanning the rest of the source from here yields.
    pub closed spec fn remaining(&self) -> (Seq<TokenView>, Seq<LexError>) {
        lex_from(self.source@, self.current as int, self.line as nat)
    }

    /// Well formed, with nothing scanned yet.
    pub open spec fn is_fresh(&self) -> bool {
        &&& self.wf()
        &&& self.cursor() == 0
        &&& self.line_count() == 1
        &&& self.tokens_so_far().len() == 0
        &&& self.errors_so_far().len() == 0
    }

    /// A scanner positioned at the start of `str`.
    pub fn new(str: String) -> (r: Self)
        requires
            str@.len() < usize::MAX,
        ensures
            r.is_fresh(),
            r.source() == str@,
    {
        let source = decode(&str);
        Scanner { source, tokens: Vec::new(), errors: Vec::new(), start: 0, current: 0, line: 1 }
    }

    fn is_at_end(&self) -> (r: bool)
        ensures
            r == (self.current >= self.source@.len()),
    {
        self.current >= self.source.len()
    }

    /// The next unread character, or `'\0'` at the end.
    fn peek(&self) -> (r: char)
        ensures
            r == if self.current < self.source@.len() {
                self.source@[self.current as int]
            } else {
                '\0'
            },
    {
        if self.is_at_end() {
            '\0'
        } else {
            self.source[self.current]
        }
    }

    /// The character after the next one, or `'\0'` past the end.
    fn peek_next(&self) -> (r: char)
        requires
            self.wf(),
        ensures
            r == if self.current + 1 < self.source@.len() {
                self.source@[self.current + 1]
            } else {
                '\0'
            },
    {
        if self.current + 1 >= self.source.len() {
            '\0'
        } else {
            self.source[self.current + 1]
        }
    }

    /// Consumes the next character.
    fn advance(&mut self) -> (c: char)
        requires
            old(self).wf(),
            old(self).current < old(self).source@.len(),
        ensures
            c == old(self).source@[old(self).current as int],
            final(self).current == old(self).current + 1,
            final(self).source == old(self).source,
            final(self).start == old(self).start,
            final(self).line == old(self).line,
            final(self).tokens == old(self).tokens,
            final(self).errors == old(self).errors,
    {
        let c = self.source[self.current];
        self.current = self.current + 1;
        c
    }

    /// Consumes the next character if it is `ch`.
    fn match_char(&mut self, ch: char) -> (r: bool)
        requires
            old(self).wf(),
        ensures
            r == (old(self).current < old(self).source@.len() && old(self).source@[old(
                self,
            ).current as int] == ch),
            final(self).current == if r {
                old(self).current + 1
            } else {
                old(self).current as int
            },
            final(self).source == old(self).source,
            final(self).start == old(self).start,
            final(self).line == old(self).line,
            final(self).tokens == old(self).tokens,
            final(self).errors == old(self).errors,
    {
        if self.is_at_end() {
            return false;
        }
        if self.source[self.current] != ch {
            return false;
        }
        self.current = self.current + 1;
        true
    }

    /// Records a token of `kind` spanning `source[start..current]`.
    fn add_token(&mut self, kind: TokenType)
        requires
            old(self).wf(),
        ensures
            final(self).wf(),
            final(self).start == old(self).start,
            took_step(
                *old(self),
                *final(self),
                emit(
                    old(self).source@,
                    old(self).start as int,
                    old(self).current as int,
                    kind,
                    old(self).line as nat,
                ),
            ),
    {
        let lexeme = text_of(&self.source, self.start, self.current);
        let token = Token::new(kind, lexeme, self.line);
        self.tokens.push(token);
        proof {
            assert(token_views(self.tokens@) =~= token_views(old(self).tokens@) + seq![token@]);
        }
    }

    /// Scans a number literal whose first digit has just been consumed.
    fn number(&mut self)
        requires
            old(self).wf(),
            old(self).current == old(self).start + 1,
            is_digit(old(self).source@[old(self).start as int]),
        ensures
            final(self).wf(),
            final(self).start == old(self).start,
            took_step(
                *old(self),
                *final(self),
                number_step(old(self).source@, old(self).start as int, old(self).line as nat),
            ),
    {
        let ghost src = self.source@;
        let ghost pos = self.start as int;
        proof {
            lemma_run_end_bounds(src, pos + 1, Run::Digits);
        }
        while is_digit_char(self.peek())
            invariant
                self.wf(),
                self.source@ == src,
                self.start == old(self).start,
                self.line == old(self).line,
                self.tokens == old(self).tokens,
                self.errors == old(self).errors,
                pos + 1 <= self.current,
                run_end(src, self.current as int, Run::Digits)
                    == run_end(src, pos + 1, Run::Digits),
            decreases src.len() - self.current,
        {
            self.advance();
        }
        if self.peek() == '.' && is_digit_char(self.peek_next()) {
            self.advance();
            proof {
                lemma_run_end_bounds(src, self.current as int, Run::Digits);
            }
            let ghost frac = self.current as int;
            while is_digit_char(self.peek())
                invariant
                    self.wf(),
                    self.source@ == src,
                    self.start == old(self).start,
                    self.line == old(self).line,
                    self.tokens == old(self).tokens,
                    self.errors == old(self).errors,
                    frac <= self.current,
                    run_end(src, self.current as int, Run::Digits)
                        == run_end(src, frac, Run::Digits),
                decreases src.len() - self.current,
            {
                self.advance();
            }
        }
        let lexeme = text_of(&self.source, self.start, self.current);
        let literal = text_of(&self.source, self.start, self.current);
        let token = Token::with_literal(TokenType::NumberLiteral, lexeme, literal, self.line);
        self.tokens.push(token);
        proof {
            assert(token_views(self.tokens@) =~= token_views(old(self).tokens@) + seq![token@]);
        }
    }

    /// Scans an identifier or reserved word whose first character has just been consumed.
    fn identifier(&mut self)
        requires
            old(self).wf(),
            old(self).current == old(self).start + 1,
        ensures
            final(self).wf(),
            final(self).start == old(self).start,
            took_step(
                *old(self),
                *final(self),
                identifier_step(old(self).source@, old(self).start as int, old(self).line as nat),
            ),
    {
        let ghost src = self.source@;
        let ghost pos = self.start as int;
        proof {
            lemma_run_end_bounds(src, pos + 1, Run::IdentifierChars);
        }
        while !self.is_at_end() && (is_alphanumeric(self.peek()) || self.peek() == '_')
            invariant
                self.wf(),
                self.source@ == src,
                self.start == old(self).start,
                self.line == old(self).line,
                self.tokens == old(self).tokens,
                self.errors == old(self).errors,
                pos + 1 <= self.current,
                run_end(src, self.current as int, Run::IdentifierChars)
                    == run_end(src, pos + 1, Run::IdentifierChars),
            decreases src.len() - self.current,
        {
            self.advance();
        }
        let kind = match lookup_keyword(&self.source, self.start, self.current) {
            Some(k) => k,
            None => TokenType::Identifier,
        };
        self.add_token(kind);
    }

    /// Scans a string literal whose opening quote has just been consumed.
    fn string(&mut self)
        requires
            old(self).wf(),
            old(self).current == old(self).start + 1,
            old(self).line <= old(self).start + 1,
        ensures
            final(self).wf(),
            final(self).start == old(self).start,
            took_step(
                *old(self),
                *final(self),
                string_step(old(self).source@, old(self).start as int, old(self).line as nat),
            ),
    {
        let ghost src = self.source@;
        let ghost pos = self.start as int;
        let open_line = self.line;
        proof {
            lemma_run_end_bounds(src, pos + 1, Run::NotQuote);
            assert(src.subrange(pos + 1, pos + 1) =~= Seq::<char>::empty());
        }
        while !self.is_at_end() && self.peek() != '"'
            invariant
                self.wf(),
                self.source@ == src,
                self.start == old(self).start,
                self.tokens == old(self).tokens,
                self.errors == old(self).errors,
                pos == self.start,
                open_line <= pos + 1,
                pos + 1 <= self.current,
                run_end(src, self.current as int, Run::NotQuote)
                    == run_end(src, pos + 1, Run::NotQuote),
                self.line == open_line + newlines(src.subrange(pos + 1, self.current as int)),
            decreases src.len() - self.current,
        {
            proof {
                lemma_newlines_extend(src, pos + 1, self.current as int);
                lemma_newlines_le(src.subrange(pos + 1, self.current as int));
            }
            if self.peek() == '\n' {
                self.line = self.line + 1;
            }
            self.advance();
        }
        if self.is_at_end() {
            self.errors.push(LexError::UnterminatedString { line: open_line });
            proof {
                let e = LexError::UnterminatedString { line: open_line };
                assert(self.errors@ =~= old(self).errors@ + seq![e]);
                assert(token_views(self.tokens@) =~= token_views(old(self).tokens@) + Seq::empty());
            }
            return;
        }
        self.advance();
        let lexeme = text_of(&self.source, self.start, self.current);
        let literal = text_of(&self.source, self.start + 1, self.current - 1);
        let token = Token::with_literal(TokenType::StringLiteral, lexeme, literal, open_line);
        self.tokens.push(token);
        proof {
            assert(token_views(self.tokens@) =~= token_views(old(self).tokens@) + seq![token@]);
            assert(self.errors@ =~= old(self).errors@ + Seq::empty());
        }
    }

    /// Consumes one character and whatever token, comment or error starts with it.
    fn scan_token(&mut self)
        requires
            old(self).wf(),
            old(self).start == old(self).current,
            old(self).current < old(self).source@.len(),
        ensures
            final(self).wf(),
            final(self).start == old(self).start,
            took_step(
                *old(self),
                *final(self),
                step(old(self).source@, old(self).current as int, old(self).line as nat),
            ),
    {
        let ghost src = self.source@;
        let ghost pos = self.start as int;
        proof {
            assert(token_views(self.tokens@) + Seq::empty() =~= token_views(self.tokens@));
            assert(self.errors@ + Seq::empty() =~= self.errors@);
        }
        let c = self.advance();
        match c {
            '(' => self.add_token(TokenType::LeftParen),
            ')' => self.add_token(TokenType::RightParen),
            '{' => self.add_token(TokenType::LeftBrace),
            '}' => self.add_token(TokenType::RightBrace),
            ',' => self.add_token(TokenType::Comma),
            '.' => self.add_token(TokenType::Dot),
            '-' => self.add_token(TokenType::Minus),
            '+' => self.add_token(TokenType::Plus),
            ';' => self.add_token(TokenType::Semicolon),
            '*' => self.add_token(TokenType::Star),
            '!' => {
                if self.match_char('=') {
                    self.add_token(TokenType::BangEqual)
                } else {
                    self.add_token(TokenType::Bang)
                }
            },
            '=' => {
                if self.match_char('=') {
                    self.add_token(TokenType::EqualEqual)
                } else {
                    self.add_token(TokenType::Equal)
                }
            },
            '<' => {
                if self.match_char('=') {
                    self.add_token(TokenType::LessEqual)
                } else {
                    self.add_token(TokenType::Less)
                }
            },
            '>' => {
                if self.match_char('=') {
                    self.add_token(TokenType::GreaterEqual)
                } else {
                    self.add_token(TokenType::Greater)
                }
            },
            '/' => {
                if self.match_char('/') {
                    proof {
                        lemma_run_end_bounds(src, pos + 2, Run::NotNewline);
                    }
                    while self.peek() != '\n' && !self.is_at_end()
                        invariant
                            self.wf(),
                            self.source@ == src,
                            self.start == old(self).start,
                            self.line == old(self).line,
                            self.tokens == old(self).tokens,
                            self.errors == old(self).errors,
                            pos + 2 <= self.current,
                            run_end(src, self.current as int, Run::NotNewline)
                                == run_end(src, pos + 2, Run::NotNewline),
                        decreases src.len() - self.current,
                    {
                        self.advance();
                    }
                } else {
                    self.add_token(TokenType::Slash);
                }
            },
            ' ' | '\r' | '\t' => {},
            '\n' => {
                self.line = self.line + 1;
            },
            '"' => self.string(),
            _ => {
                if is_digit_char(c) {
                    self.number();
                } else if is_alphabetic(c) || c == '_' {
                    self.identifier();
                } else {
                    self.errors.push(LexError::UnexpectedCharacter { line: self.line });
                    proof {
                        let e = LexError::UnexpectedCharacter { line: self.line };
                        assert(self.errors@ =~= old(self).errors@ + seq![e]);
                    }
                }
            },
        }
    }

    /// Scans the whole source: the tokens in source order, closed by one
    /// `EndOfInput`, and the lexical errors in the order they were met.
    pub fn scan_tokens(self) -> (r: (Vec<Token>, Vec<LexError>))
        requires
            self.is_fresh(),
        ensures
            token_views(r.0@) == lex(self.source()).0,
            r.1@ == lex(self.source()).1,
            ends_with_end_of_input(r.0@),
    {
        let mut s = self;
        let ghost src = s.source@;
        while !s.is_at_end()
            invariant
                s.wf(),
                s.source@ == src,
                token_views(s.tokens@) + s.remaining().0 == lex(src).0,
                s.errors@ + s.remaining().1 == lex(src).1,
            decreases src.len() - s.current,
        {
            s.start = s.current;
            let ghost before = s;
            s.scan_token();
            proof {
                let st = step(src, before.current as int, before.line as nat);
                lemma_step_bounds(src, before.current as int, before.line as nat);
                assert(before.remaining().0 == as_seq(st.token) + s.remaining().0);
                assert(token_views(s.tokens@) + s.remaining().0 =~= token_views(before.tokens@)
                    + before.remaining().0);
                assert(s.errors@ + s.remaining().1 =~= before.errors@ + before.remaining().1);
            }
        }
        let ghost done = s.tokens@;
        let end = Token::new(TokenType::EndOfInput, String::new(), s.line);
        s.tokens.push(end);
        proof {
            assert(token_views(s.tokens@) =~= token_views(done) + seq![end@]);
            ends_with_one_end_of_input(src);
            assert forall|i: int| 0 <= i < s.tokens@.len() implies #[trigger] s.tokens@[
                i
            ].token_type == lex(src).0[i].kind by {
                assert(token_views(s.tokens@)[i] == s.tokens@[i]@);
            }
        }
        (s.tokens, s.errors)
    }
}

/// Scans `source` from start to end: the tokens in source order, closed by one
/// `EndOfInput`, and the lexical errors in the order they were met.
pub fn scan(source: String) -> (r: (Vec<Token>, Vec<LexError>))
    requires
        source@.len() < usize::MAX,
    ensures
        token_views(r.0@) == lex(source@).0,
        r.1@ == lex(source@).1,
        ends_with_end_of_input(r.0@),
{
    let scanner = Scanner::new(source);
    scanner.scan_tokens()
}

} // verus!
