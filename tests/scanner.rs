use crafting_interpreters::scanner::{scan, Scanner};
use crafting_interpreters::token::{LexError, Token, TokenType};

fn lex(source: &str) -> (Vec<Token>, Vec<LexError>) {
    scan(source.to_string())
}

fn kinds(tokens: &[Token]) -> Vec<TokenType> {
    tokens.iter().map(|t| t.token_type).collect()
}

fn summary(tokens: &[Token]) -> Vec<(TokenType, String, Option<String>, usize)> {
    tokens
        .iter()
        .map(|t| (t.token_type, t.lexeme.clone(), t.literal.clone(), t.line))
        .collect()
}

#[test]
fn empty_input_yields_only_end_of_input() {
    let (tokens, errors) = lex("");
    assert_eq!(summary(&tokens), vec![(TokenType::EndOfInput, String::new(), None, 1)]);
    assert!(errors.is_empty());
}

#[test]
fn whitespace_input_yields_only_end_of_input() {
    let (tokens, errors) = lex(" \t\r\n  ");
    assert_eq!(summary(&tokens), vec![(TokenType::EndOfInput, String::new(), None, 2)]);
    assert!(errors.is_empty());
}

#[test]
fn all_error_input_still_ends_with_end_of_input() {
    let (tokens, errors) = lex("@#$");
    assert_eq!(kinds(&tokens), vec![TokenType::EndOfInput]);
    assert_eq!(
        errors,
        vec![
            LexError::UnexpectedCharacter { line: 1 },
            LexError::UnexpectedCharacter { line: 1 },
            LexError::UnexpectedCharacter { line: 1 },
        ]
    );
}

#[test]
fn end_of_input_appears_once_and_last() {
    let (tokens, _) = lex("var x = (1 + 2) * 3; // done\nprint x;");
    let n = tokens.iter().filter(|t| t.token_type == TokenType::EndOfInput).count();
    assert_eq!(n, 1);
    assert_eq!(tokens.last().unwrap().token_type, TokenType::EndOfInput);
    assert_eq!(tokens.last().unwrap().line, 2);
}

#[test]
fn two_character_operators_are_preferred() {
    let (tokens, errors) = lex("!= == <= >=");
    assert_eq!(
        summary(&tokens),
        vec![
            (TokenType::BangEqual, "!=".to_string(), None, 1),
            (TokenType::EqualEqual, "==".to_string(), None, 1),
            (TokenType::LessEqual, "<=".to_string(), None, 1),
            (TokenType::GreaterEqual, ">=".to_string(), None, 1),
            (TokenType::EndOfInput, String::new(), None, 1),
        ]
    );
    assert!(errors.is_empty());
}

#[test]
fn one_character_operators_without_equal() {
    let (tokens, _) = lex("! = < > ===");
    assert_eq!(
        kinds(&tokens),
        vec![
            TokenType::Bang,
            TokenType::Equal,
            TokenType::Less,
            TokenType::Greater,
            TokenType::EqualEqual,
            TokenType::Equal,
            TokenType::EndOfInput,
        ]
    );
}

#[test]
fn single_character_punctuation() {
    let (tokens, errors) = lex("(){},.-+;*/");
    assert_eq!(
        kinds(&tokens),
        vec![
            TokenType::LeftParen,
            TokenType::RightParen,
            TokenType::LeftBrace,
            TokenType::RightBrace,
            TokenType::Comma,
            TokenType::Dot,
            TokenType::Minus,
            TokenType::Plus,
            TokenType::Semicolon,
            TokenType::Star,
            TokenType::Slash,
            TokenType::EndOfInput,
        ]
    );
    assert!(errors.is_empty());
}

#[test]
fn comment_is_skipped() {
    let (tokens, errors) = lex("// anything\n1");
    assert_eq!(kinds(&tokens), vec![TokenType::NumberLiteral, TokenType::EndOfInput]);
    let value: f64 = tokens[0].literal.as_ref().unwrap().parse().unwrap();
    assert_eq!(value, 1.0);
    assert_eq!(tokens[0].line, 2);
    assert!(errors.is_empty());
}

#[test]
fn comment_at_end_of_input() {
    let (tokens, errors) = lex("+ // trailing");
    assert_eq!(kinds(&tokens), vec![TokenType::Plus, TokenType::EndOfInput]);
    assert!(errors.is_empty());
}

#[test]
fn line_tracking() {
    let (tokens, _) = lex("\n\n+");
    assert_eq!(tokens[0].token_type, TokenType::Plus);
    assert_eq!(tokens[0].line, 3);
    assert_eq!(tokens[1].line, 3);
}

#[test]
fn string_literal() {
    let (tokens, errors) = lex("\"hi\"");
    assert_eq!(
        summary(&tokens),
        vec![
            (TokenType::StringLiteral, "\"hi\"".to_string(), Some("hi".to_string()), 1),
            (TokenType::EndOfInput, String::new(), None, 1),
        ]
    );
    assert!(errors.is_empty());
}

#[test]
fn unterminated_string() {
    let (tokens, errors) = lex("\"hi");
    assert_eq!(kinds(&tokens), vec![TokenType::EndOfInput]);
    assert_eq!(errors, vec![LexError::UnterminatedString { line: 1 }]);
}

#[test]
fn unterminated_string_reports_opening_line() {
    let (tokens, errors) = lex("1\n\"a\nb");
    assert_eq!(kinds(&tokens), vec![TokenType::NumberLiteral, TokenType::EndOfInput]);
    assert_eq!(tokens[1].line, 3);
    assert_eq!(errors, vec![LexError::UnterminatedString { line: 2 }]);
}

#[test]
fn multiline_string_counts_lines() {
    let (tokens, errors) = lex("\"a\nb\" +");
    assert_eq!(
        summary(&tokens),
        vec![
            (TokenType::StringLiteral, "\"a\nb\"".to_string(), Some("a\nb".to_string()), 1),
            (TokenType::Plus, "+".to_string(), None, 2),
            (TokenType::EndOfInput, String::new(), None, 2),
        ]
    );
    assert!(errors.is_empty());
}

#[test]
fn empty_string_literal() {
    let (tokens, _) = lex("\"\"");
    assert_eq!(tokens[0].token_type, TokenType::StringLiteral);
    assert_eq!(tokens[0].literal, Some(String::new()));
    assert_eq!(tokens[0].lexeme, "\"\"");
}

#[test]
fn string_with_multibyte_characters() {
    let (tokens, errors) = lex("\"héllo ✓\";");
    assert_eq!(tokens[0].lexeme, "\"héllo ✓\"");
    assert_eq!(tokens[0].literal, Some("héllo ✓".to_string()));
    assert_eq!(tokens[1].token_type, TokenType::Semicolon);
    assert!(errors.is_empty());
}

#[test]
fn number_literals() {
    let (tokens, _) = lex("123");
    assert_eq!(kinds(&tokens), vec![TokenType::NumberLiteral, TokenType::EndOfInput]);
    assert_eq!(tokens[0].lexeme, "123");
    let v: f64 = tokens[0].literal.as_ref().unwrap().parse().unwrap();
    assert_eq!(v, 123.0);

    let (tokens, _) = lex("123.45");
    assert_eq!(kinds(&tokens), vec![TokenType::NumberLiteral, TokenType::EndOfInput]);
    assert_eq!(tokens[0].literal, Some("123.45".to_string()));
    let v: f64 = tokens[0].literal.as_ref().unwrap().parse().unwrap();
    assert_eq!(v, 123.45);

    let (tokens, _) = lex("123.");
    assert_eq!(
        kinds(&tokens),
        vec![TokenType::NumberLiteral, TokenType::Dot, TokenType::EndOfInput]
    );
    let v: f64 = tokens[0].literal.as_ref().unwrap().parse().unwrap();
    assert_eq!(v, 123.0);
}

#[test]
fn number_followed_by_method_call() {
    let (tokens, _) = lex("12.abs");
    assert_eq!(
        summary(&tokens),
        vec![
            (TokenType::NumberLiteral, "12".to_string(), Some("12".to_string()), 1),
            (TokenType::Dot, ".".to_string(), None, 1),
            (TokenType::Identifier, "abs".to_string(), None, 1),
            (TokenType::EndOfInput, String::new(), None, 1),
        ]
    );
}

#[test]
fn keyword_versus_identifier() {
    let (tokens, _) = lex("classify");
    assert_eq!(kinds(&tokens), vec![TokenType::Identifier, TokenType::EndOfInput]);
    assert_eq!(tokens[0].lexeme, "classify");

    let (tokens, _) = lex("class");
    assert_eq!(kinds(&tokens), vec![TokenType::Class, TokenType::EndOfInput]);

    let (tokens, _) = lex("Class");
    assert_eq!(kinds(&tokens), vec![TokenType::Identifier, TokenType::EndOfInput]);
}

#[test]
fn every_reserved_word() {
    let (tokens, errors) = lex(
        "and class else false fun for if nil or print return super this true var while",
    );
    assert_eq!(
        kinds(&tokens),
        vec![
            TokenType::And,
            TokenType::Class,
            TokenType::Else,
            TokenType::False,
            TokenType::Fun,
            TokenType::For,
            TokenType::If,
            TokenType::Nil,
            TokenType::Or,
            TokenType::Print,
            TokenType::Return,
            TokenType::Super,
            TokenType::This,
            TokenType::True,
            TokenType::Var,
            TokenType::While,
            TokenType::EndOfInput,
        ]
    );
    assert!(errors.is_empty());
}

#[test]
fn identifiers_with_underscores_digits_and_letters_beyond_ascii() {
    let (tokens, errors) = lex("_tmp x1 été");
    assert_eq!(
        summary(&tokens),
        vec![
            (TokenType::Identifier, "_tmp".to_string(), None, 1),
            (TokenType::Identifier, "x1".to_string(), None, 1),
            (TokenType::Identifier, "été".to_string(), None, 1),
            (TokenType::EndOfInput, String::new(), None, 1),
        ]
    );
    assert!(errors.is_empty());
}

#[test]
fn unexpected_character() {
    let (tokens, errors) = lex("@");
    assert_eq!(kinds(&tokens), vec![TokenType::EndOfInput]);
    assert_eq!(errors, vec![LexError::UnexpectedCharacter { line: 1 }]);
}

#[test]
fn scanning_continues_after_unexpected_character() {
    let (tokens, errors) = lex("@ +\n# 1");
    assert_eq!(
        kinds(&tokens),
        vec![TokenType::Plus, TokenType::NumberLiteral, TokenType::EndOfInput]
    );
    assert_eq!(
        errors,
        vec![
            LexError::UnexpectedCharacter { line: 1 },
            LexError::UnexpectedCharacter { line: 2 },
        ]
    );
}

#[test]
fn scanning_is_deterministic() {
    let source = "fun f(a) { return a >= 1.5 and \"x\"; } @";
    let (t1, e1) = lex(source);
    let (t2, e2) = lex(source);
    assert_eq!(summary(&t1), summary(&t2));
    assert_eq!(e1, e2);
}

#[test]
fn scanner_new_then_scan_tokens() {
    let scanner = Scanner::new("print 1;".to_string());
    let (tokens, errors) = scanner.scan_tokens();
    assert_eq!(
        kinds(&tokens),
        vec![
            TokenType::Print,
            TokenType::NumberLiteral,
            TokenType::Semicolon,
            TokenType::EndOfInput,
        ]
    );
    assert!(errors.is_empty());
}

#[test]
fn token_constructors() {
    let t = Token::new(TokenType::Plus, "+".to_string(), 4);
    assert_eq!(t.token_type, TokenType::Plus);
    assert_eq!(t.lexeme, "+");
    assert_eq!(t.literal, None);
    assert_eq!(t.line, 4);
    let s = Token::with_literal(TokenType::StringLiteral, "\"a\"".to_string(), "a".to_string(), 2);
    assert_eq!(s.literal, Some("a".to_string()));
    assert_eq!(s.line, 2);
}

#[test]
fn lex_error_line_and_message() {
    let e = LexError::UnexpectedCharacter { line: 7 };
    assert_eq!(e.line(), 7);
    assert_eq!(e.message(), "Unexpected character.");
    let e = LexError::UnterminatedString { line: 3 };
    assert_eq!(e.line(), 3);
    assert_eq!(e.message(), "Unterminated string.");
}
