use frontend::{LexErrorKind, Lexer, Token, TokenType};

fn scan(text: &str) -> (Result<(), frontend::LexError>, Vec<Token>) {
    let lines: Vec<String> = text.split('\n').map(|l| l.to_string()).collect();
    let mut lexer = Lexer::new(text.chars().collect(), lines);
    let r = lexer.scan();
    (r, lexer.tokens)
}

fn tok(kind: TokenType, lexeme: &str, line: usize) -> Token {
    Token::new(kind, lexeme.to_string(), line)
}

fn kinds(tokens: &[Token]) -> Vec<TokenType> {
    tokens.iter().map(|t| t.token_type).collect()
}

#[test]
fn blank_input_gives_only_the_sentinel() {
    let (r, tokens) = scan("  \t \r  ");
    assert!(r.is_ok());
    assert_eq!(tokens, vec![Token::end(1)]);
    assert_eq!(tokens[0].lexeme, "<-- END OF FILE -->");
}

#[test]
fn empty_input_gives_only_the_sentinel() {
    let (r, tokens) = scan("");
    assert!(r.is_ok());
    assert_eq!(tokens, vec![Token::end(1)]);
}

#[test]
fn integer_literal() {
    let (r, tokens) = scan("12345");
    assert!(r.is_ok());
    assert_eq!(tokens, vec![tok(TokenType::NumberLit, "12345", 1), Token::end(1)]);
}

#[test]
fn float_literal_keeps_its_text() {
    let (r, tokens) = scan("3.14");
    assert!(r.is_ok());
    assert_eq!(tokens, vec![tok(TokenType::NumberLit, "3.14", 1), Token::end(1)]);
    let value: f64 = tokens[0].lexeme.parse().unwrap();
    assert_eq!(value.to_string().parse::<f64>().unwrap(), 3.14);
}

#[test]
fn integer_literal_round_trips_through_its_value() {
    let (r, tokens) = scan("2024");
    assert!(r.is_ok());
    let value: i32 = tokens[0].lexeme.parse().unwrap();
    assert_eq!(value.to_string(), "2024");
}

#[test]
fn trailing_period_is_part_of_the_float() {
    let (r, tokens) = scan("12.");
    assert!(r.is_ok());
    assert_eq!(tokens, vec![tok(TokenType::NumberLit, "12.", 1), Token::end(1)]);
}

#[test]
fn second_period_ends_the_number() {
    let (r, tokens) = scan("1.2.3");
    let e = r.unwrap_err();
    assert_eq!(e.kind, LexErrorKind::UnrecognizedChar);
    assert_eq!(e.lexeme, ".");
    assert_eq!(e.line, 1);
    assert_eq!(tokens, vec![tok(TokenType::NumberLit, "1.2", 1)]);
}

#[test]
fn separators_are_dropped_from_numbers() {
    let (r, tokens) = scan("100_000");
    assert!(r.is_ok());
    assert_eq!(tokens, vec![tok(TokenType::NumberLit, "100000", 1), Token::end(1)]);
}

#[test]
fn largest_integer_is_accepted() {
    let (r, tokens) = scan("2147483647");
    assert!(r.is_ok());
    assert_eq!(tokens[0], tok(TokenType::NumberLit, "2147483647", 1));
}

#[test]
fn integer_past_i32_is_malformed() {
    let (r, _) = scan("2_147_483_648");
    let e = r.unwrap_err();
    assert_eq!(e.kind, LexErrorKind::MalformedNumber);
    assert_eq!(e.lexeme, "2147483648");
    assert_eq!(e.line, 1);
}

#[test]
fn string_literal_excludes_quotes() {
    let (r, tokens) = scan("\"hello world\"");
    assert!(r.is_ok());
    assert_eq!(tokens, vec![tok(TokenType::StringLit, "hello world", 1), Token::end(1)]);
}

#[test]
fn empty_string_literal() {
    let (r, tokens) = scan("\"\"");
    assert!(r.is_ok());
    assert_eq!(tokens, vec![tok(TokenType::StringLit, "", 1), Token::end(1)]);
}

#[test]
fn unterminated_string_is_an_error() {
    let (r, _) = scan("\"abc");
    let e = r.unwrap_err();
    assert_eq!(e.kind, LexErrorKind::UnterminatedString);
    assert_eq!(e.lexeme, "abc");
    assert_eq!(e.line, 1);
}

#[test]
fn newline_stamps_lines() {
    let (r, tokens) = scan("1\n2");
    assert!(r.is_ok());
    assert_eq!(
        tokens,
        vec![
            tok(TokenType::NumberLit, "1", 1),
            tok(TokenType::NewLn, "newline", 1),
            tok(TokenType::NumberLit, "2", 2),
            Token::end(2),
        ]
    );
}

#[test]
fn keyword_lines_follow_newlines() {
    let (r, tokens) = scan("cout\n\ncout");
    assert!(r.is_ok());
    let lines: Vec<usize> = tokens.iter().map(|t| t.line).collect();
    assert_eq!(lines, vec![1, 1, 2, 3, 3]);
    assert_eq!(
        kinds(&tokens),
        vec![TokenType::Cout, TokenType::NewLn, TokenType::NewLn, TokenType::Cout, TokenType::EndFile]
    );
}

#[test]
fn symbols_are_single_tokens() {
    let (r, tokens) = scan("= ! + - / *");
    assert!(r.is_ok());
    assert_eq!(
        kinds(&tokens),
        vec![
            TokenType::Equals,
            TokenType::Bang,
            TokenType::Plus,
            TokenType::Minus,
            TokenType::Slash,
            TokenType::Star,
            TokenType::EndFile,
        ]
    );
    assert_eq!(tokens[2].lexeme, "+");
}

#[test]
fn number_next_to_operator() {
    let (r, tokens) = scan("1+2");
    assert!(r.is_ok());
    assert_eq!(
        tokens,
        vec![
            tok(TokenType::NumberLit, "1", 1),
            tok(TokenType::Plus, "+", 1),
            tok(TokenType::NumberLit, "2", 1),
            Token::end(1),
        ]
    );
}

#[test]
fn keyword_at_end_of_input() {
    let (r, tokens) = scan("cout");
    assert!(r.is_ok());
    assert_eq!(tokens, vec![tok(TokenType::Cout, "cout", 1), Token::end(1)]);
}

#[test]
fn unknown_word_is_unresolved() {
    let (r, _) = scan("cout_x");
    let e = r.unwrap_err();
    assert_eq!(e.kind, LexErrorKind::UnresolvedIdentifier);
    assert_eq!(e.lexeme, "cout_x");
}

#[test]
fn unicode_letters_form_words() {
    let (r, _) = scan("\u{e9}t\u{e9}");
    let e = r.unwrap_err();
    assert_eq!(e.kind, LexErrorKind::UnresolvedIdentifier);
    assert_eq!(e.lexeme, "\u{e9}t\u{e9}");
}

#[test]
fn unrecognized_character() {
    let (r, tokens) = scan("1 #");
    let e = r.unwrap_err();
    assert_eq!(e.kind, LexErrorKind::UnrecognizedChar);
    assert_eq!(e.lexeme, "#");
    assert_eq!(tokens, vec![tok(TokenType::NumberLit, "1", 1)]);
}

#[test]
fn scanning_twice_gives_the_same_tokens() {
    let text = "cout 1 + \"a\"\n2.5";
    let (r1, t1) = scan(text);
    let (r2, t2) = scan(text);
    assert!(r1.is_ok() && r2.is_ok());
    assert_eq!(t1, t2);
    assert_eq!(t1.len(), 7);
}
