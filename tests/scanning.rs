use scanner::{ScanError, Scanner, Token, TokenType};

fn scan(text: &str) -> (Vec<Token>, Vec<ScanError>) {
    Scanner::new(String::from(text)).scan_tokens()
}

fn tok(kind: TokenType, lexeme: &str, line: usize) -> Token {
    Token::new(kind, String::from(lexeme), line)
}

fn kinds(tokens: &[Token]) -> Vec<TokenType> {
    tokens.iter().map(|t| t.kind.clone()).collect()
}

#[test]
fn empty_input_gives_only_end() {
    let (tokens, errors) = scan("");
    assert_eq!(tokens, vec![tok(TokenType::End, "", 1)]);
    assert!(errors.is_empty());
}

#[test]
fn whitespace_only_gives_end_on_last_line() {
    let (tokens, errors) = scan(" \t\r\n\n  ");
    assert_eq!(tokens, vec![tok(TokenType::End, "", 3)]);
    assert!(errors.is_empty());
}

#[test]
fn end_is_last_and_unique() {
    let (tokens, _) = scan("(\"x\" @ // c\n<= \"open");
    assert_eq!(tokens.last().unwrap().kind, TokenType::End);
    assert_eq!(tokens.iter().filter(|t| t.kind == TokenType::End).count(), 1);
}

#[test]
fn string_literal_strips_quotes() {
    let (tokens, errors) = scan("\"hello\"");
    assert_eq!(
        tokens,
        vec![
            tok(TokenType::String(String::from("hello")), "\"hello\"", 1),
            tok(TokenType::End, "", 1),
        ]
    );
    assert!(errors.is_empty());
}

#[test]
fn multiline_string_keeps_newline_and_counts_line() {
    let (tokens, errors) = scan("\"a\nb\"");
    assert_eq!(
        tokens,
        vec![
            tok(TokenType::String(String::from("a\nb")), "\"a\nb\"", 1),
            tok(TokenType::End, "", 2),
        ]
    );
    assert!(errors.is_empty());
}

#[test]
fn string_token_stands_on_line_of_opening_quote() {
    let (tokens, _) = scan("\n\"a\nb\" +");
    assert_eq!(
        tokens,
        vec![
            tok(TokenType::String(String::from("a\nb")), "\"a\nb\"", 2),
            tok(TokenType::Plus, "+", 3),
            tok(TokenType::End, "", 3),
        ]
    );
}

#[test]
fn empty_string_literal() {
    let (tokens, _) = scan("\"\"");
    assert_eq!(tokens[0], tok(TokenType::String(String::new()), "\"\"", 1));
}

#[test]
fn comment_is_skipped() {
    let (tokens, errors) = scan("// comment\n+");
    assert_eq!(tokens, vec![tok(TokenType::Plus, "+", 2), tok(TokenType::End, "", 2)]);
    assert!(errors.is_empty());
}

#[test]
fn comment_at_end_of_input() {
    let (tokens, errors) = scan("+// tail");
    assert_eq!(tokens, vec![tok(TokenType::Plus, "+", 1), tok(TokenType::End, "", 1)]);
    assert!(errors.is_empty());
}

#[test]
fn less_equal_is_one_token() {
    let (tokens, _) = scan("<=");
    assert_eq!(tokens, vec![tok(TokenType::LessEqual, "<=", 1), tok(TokenType::End, "", 1)]);
}

#[test]
fn less_alone() {
    let (tokens, _) = scan("<");
    assert_eq!(tokens, vec![tok(TokenType::Less, "<", 1), tok(TokenType::End, "", 1)]);
}

#[test]
fn operators_with_and_without_equals() {
    let (tokens, errors) = scan("! != = == < <= > >=");
    assert_eq!(
        kinds(&tokens),
        vec![
            TokenType::Bang,
            TokenType::BangEqual,
            TokenType::Equal,
            TokenType::EqualEqual,
            TokenType::Less,
            TokenType::LessEqual,
            TokenType::Greater,
            TokenType::GreaterEqual,
            TokenType::End,
        ]
    );
    assert!(errors.is_empty());
}

#[test]
fn punctuation_and_slash() {
    let (tokens, errors) = scan("(){},.-+;*/");
    assert_eq!(
        kinds(&tokens),
        vec![
            TokenType::LeftParen,
            TokenType::RightParen,
            TokenType::LeftBrace,
            TokenType::RightBrace,
            TokenType::Comma,
            TokenType::Dot,
            TokenType::Minus,
            TokenType::Plus,
            TokenType::Semicolon,
            TokenType::Star,
            TokenType::Slash,
            TokenType::End,
        ]
    );
    let lexemes: Vec<&str> = tokens.iter().map(|t| t.lexeme.as_str()).collect();
    assert_eq!(lexemes, vec!["(", ")", "{", "}", ",", ".", "-", "+", ";", "*", "/", ""]);
    assert!(errors.is_empty());
}

#[test]
fn lexemes_are_source_spans() {
    let (tokens, _) = scan("a!=(\n>=");
    assert_eq!(
        tokens,
        vec![
            tok(TokenType::BangEqual, "!=", 1),
            tok(TokenType::LeftParen, "(", 1),
            tok(TokenType::GreaterEqual, ">=", 2),
            tok(TokenType::End, "", 2),
        ]
    );
}

#[test]
fn unterminated_string_reports_error() {
    let (tokens, errors) = scan("\"unterminated");
    assert_eq!(tokens, vec![tok(TokenType::End, "", 1)]);
    assert_eq!(errors, vec![ScanError::UnterminatedString { line: 1 }]);
}

#[test]
fn unterminated_string_reports_line_where_scan_stopped() {
    let (tokens, errors) = scan("+ \"a\nb\n");
    assert_eq!(tokens, vec![tok(TokenType::Plus, "+", 1), tok(TokenType::End, "", 3)]);
    assert_eq!(errors, vec![ScanError::UnterminatedString { line: 3 }]);
}

#[test]
fn unexpected_char_does_not_stop_scan() {
    let (tokens, errors) = scan("@+");
    assert_eq!(tokens, vec![tok(TokenType::Plus, "+", 1), tok(TokenType::End, "", 1)]);
    assert_eq!(errors, vec![ScanError::UnexpectedChar { line: 1, ch: '@' }]);
}

#[test]
fn non_ascii_characters_are_indexed_by_char() {
    let (tokens, errors) = scan("é\n\"ü\"+");
    assert_eq!(
        tokens,
        vec![
            tok(TokenType::String(String::from("ü")), "\"ü\"", 2),
            tok(TokenType::Plus, "+", 2),
            tok(TokenType::End, "", 2),
        ]
    );
    assert_eq!(errors, vec![ScanError::UnexpectedChar { line: 1, ch: 'é' }]);
}
