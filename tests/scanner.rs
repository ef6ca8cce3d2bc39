use exprlang::lexer::{LexError, Token, TokenType, Tokenizer};

fn kinds_of(source: &str) -> Result<Vec<TokenType>, LexError> {
    let mut tokenizer = Tokenizer::new(source.to_string());
    tokenizer
        .tokenize()
        .map(|tokens| tokens.into_iter().map(|t| t.kind).collect())
}

fn ident(s: &str) -> TokenType {
    TokenType::LiteralIdentifier(s.to_string())
}

fn string(s: &str) -> TokenType {
    TokenType::LiteralString(s.to_string())
}

#[test]
fn empty_source_is_only_end_of_input() {
    assert_eq!(kinds_of(""), Ok(vec![TokenType::EOF]));
}

#[test]
fn whitespace_only_source_is_only_end_of_input() {
    assert_eq!(kinds_of(" "), Ok(vec![TokenType::EOF]));
    assert_eq!(kinds_of("   \n \n\n  "), Ok(vec![TokenType::EOF]));
}

#[test]
fn digit_run_is_one_integer() {
    assert_eq!(kinds_of("5"), Ok(vec![TokenType::LiteralInteger(5), TokenType::EOF]));
    assert_eq!(
        kinds_of("12345"),
        Ok(vec![TokenType::LiteralInteger(12345), TokenType::EOF])
    );
    assert_eq!(kinds_of("007"), Ok(vec![TokenType::LiteralInteger(7), TokenType::EOF]));
}

#[test]
fn largest_integer_is_accepted() {
    assert_eq!(
        kinds_of("2147483647"),
        Ok(vec![TokenType::LiteralInteger(2147483647), TokenType::EOF])
    );
}

#[test]
fn integer_past_i32_is_an_error() {
    assert_eq!(kinds_of("2147483648"), Err(LexError::IntegerOverflow { start: 0 }));
    assert_eq!(
        kinds_of("1 + 99999999999999999999"),
        Err(LexError::IntegerOverflow { start: 4 })
    );
}

#[test]
fn quoted_strings_carry_their_inner_text() {
    assert_eq!(kinds_of("\"hello world\""), Ok(vec![string("hello world"), TokenType::EOF]));
    assert_eq!(kinds_of("'abc'"), Ok(vec![string("abc"), TokenType::EOF]));
    assert_eq!(kinds_of("\"\""), Ok(vec![string(""), TokenType::EOF]));
}

#[test]
fn quote_of_the_other_kind_stays_inside() {
    assert_eq!(kinds_of("\"it's\""), Ok(vec![string("it's"), TokenType::EOF]));
    assert_eq!(kinds_of("'say \"hi\"'"), Ok(vec![string("say \"hi\""), TokenType::EOF]));
}

#[test]
fn non_ascii_text_inside_a_string() {
    assert_eq!(kinds_of("\"héllo\" 1"), Ok(vec![string("héllo"), TokenType::LiteralInteger(1), TokenType::EOF]));
}

#[test]
fn unterminated_string_is_an_error() {
    assert_eq!(kinds_of("\"abc"), Err(LexError::UnterminatedString { start: 0 }));
    assert_eq!(kinds_of("'abc\""), Err(LexError::UnterminatedString { start: 0 }));
    assert_eq!(kinds_of("1 + 'x"), Err(LexError::UnterminatedString { start: 4 }));
}

#[test]
fn keywords_are_recognised() {
    assert_eq!(kinds_of("func"), Ok(vec![TokenType::KeywordFunc, TokenType::EOF]));
    assert_eq!(kinds_of("if"), Ok(vec![TokenType::KeywordIf, TokenType::EOF]));
    assert_eq!(kinds_of("true"), Ok(vec![TokenType::LiteralTrue, TokenType::EOF]));
    assert_eq!(kinds_of("false"), Ok(vec![TokenType::LiteralFalse, TokenType::EOF]));
}

#[test]
fn near_keywords_are_identifiers() {
    assert_eq!(kinds_of("funcs"), Ok(vec![ident("funcs"), TokenType::EOF]));
    assert_eq!(kinds_of("iff"), Ok(vec![ident("iff"), TokenType::EOF]));
    assert_eq!(kinds_of("True"), Ok(vec![ident("True"), TokenType::EOF]));
    assert_eq!(kinds_of("_if1"), Ok(vec![ident("_if1"), TokenType::EOF]));
    assert_eq!(kinds_of("x"), Ok(vec![ident("x"), TokenType::EOF]));
}

#[test]
fn identifier_stops_at_other_characters() {
    assert_eq!(
        kinds_of("abc+d2"),
        Ok(vec![ident("abc"), TokenType::Plus, ident("d2"), TokenType::EOF])
    );
    assert_eq!(
        kinds_of("12ab"),
        Ok(vec![TokenType::LiteralInteger(12), ident("ab"), TokenType::EOF])
    );
}

#[test]
fn single_character_tokens() {
    assert_eq!(
        kinds_of("()+-*/;,"),
        Ok(vec![
            TokenType::Lparen,
            TokenType::Rparen,
            TokenType::Plus,
            TokenType::Minus,
            TokenType::Asterisk,
            TokenType::Slash,
            TokenType::PunctSemicolon,
            TokenType::PunctComma,
            TokenType::EOF,
        ])
    );
}

#[test]
fn equals_is_greedy() {
    assert_eq!(
        kinds_of("= == ==="),
        Ok(vec![
            TokenType::Equals,
            TokenType::DoubleEquals,
            TokenType::DoubleEquals,
            TokenType::Equals,
            TokenType::EOF,
        ])
    );
    assert_eq!(kinds_of("a="), Ok(vec![ident("a"), TokenType::Equals, TokenType::EOF]));
}

#[test]
fn unknown_symbol_is_an_error() {
    assert_eq!(
        kinds_of("1 # 2"),
        Err(LexError::UnknownSymbol { symbol: '#', position: 2 })
    );
    assert_eq!(
        kinds_of("\t"),
        Err(LexError::UnknownSymbol { symbol: '\t', position: 0 })
    );
}

#[test]
fn scanning_twice_gives_the_same_tokens() {
    let source = "func f(x, 'y') == 12 - z;";
    let mut tokenizer = Tokenizer::new(source.to_string());
    let first = tokenizer.tokenize();
    let second = tokenizer.tokenize();
    assert!(first.is_ok());
    assert_eq!(first, second);
    let mut other = Tokenizer::new(source.to_string());
    assert_eq!(other.tokenize(), first);
    assert_eq!(tokenizer.source, source);
}

#[test]
fn end_of_input_is_last_and_only_once() {
    let tokens = kinds_of("if (a == 'b') 1 + 2;").unwrap();
    assert_eq!(tokens.len(), 11);
    assert_eq!(tokens.last(), Some(&TokenType::EOF));
    assert_eq!(tokens.iter().filter(|k| **k == TokenType::EOF).count(), 1);
}

#[test]
fn token_new_keeps_its_kind() {
    let token = Token::new(TokenType::LiteralInteger(3));
    assert_eq!(token.kind, TokenType::LiteralInteger(3));
    assert_eq!(token.duplicate(), token);
}
