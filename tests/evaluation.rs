use exprlang::lexer::{Token, TokenType, Tokenizer};
use exprlang::parser::{
    AstNodeType, EvalError, Evaluatable, Expr, Operator, ParseError, ParseErrorKind, Parser,
};

fn parse_source(source: &str) -> Result<exprlang::parser::AstNode, ParseError> {
    let mut tokenizer = Tokenizer::new(source.to_string());
    let tokens = tokenizer.tokenize().expect("source scans");
    let mut parser = Parser::new(tokens);
    parser.parse()
}

fn evaluate(source: &str) -> Result<i32, EvalError> {
    parse_source(source).expect("source parses").eval()
}

fn parse_error(source: &str) -> ParseError {
    match parse_source(source) {
        Ok(_) => panic!("expected a parse error for {source}"),
        Err(e) => e,
    }
}

#[test]
fn subtraction_after_addition_folds_left() {
    assert_eq!(evaluate("1 + 2 - 3"), Ok(0));
}

#[test]
fn single_literal_evaluates_to_itself() {
    assert_eq!(evaluate("5"), Ok(5));
}

#[test]
fn three_additions() {
    assert_eq!(evaluate("2 + 3 + 4"), Ok(9));
}

#[test]
fn subtraction_is_left_associative() {
    assert_eq!(evaluate("10 - 3 - 2"), Ok(5));
    assert_eq!(evaluate("1-2-3-4"), Ok(-8));
}

#[test]
fn parentheses_group() {
    assert_eq!(evaluate("10 - (3 - 2)"), Ok(9));
    assert_eq!(evaluate("((7))"), Ok(7));
    assert_eq!(evaluate("(1 + 2) - (3 + 4)"), Ok(-4));
}

#[test]
fn tree_shape_of_a_left_fold() {
    let root = parse_source("2 + 3 - 4").unwrap();
    assert_eq!(root.tag(), AstNodeType::ExprBinaryOp);
    match &root.node {
        Expr::ExprBinaryOp { left, operator, right } => {
            assert_eq!(*operator, Operator::Minus);
            assert_eq!(left.tag(), AstNodeType::ExprBinaryOp);
            assert_eq!(right.tag(), AstNodeType::Literal);
            match &left.node {
                Expr::ExprBinaryOp { operator, .. } => assert_eq!(*operator, Operator::Plus),
                Expr::Literal { .. } => panic!("left side should be the first sum"),
            }
        }
        Expr::Literal { .. } => panic!("root should be a binary node"),
    }
}

#[test]
fn literal_node_keeps_its_token() {
    let root = parse_source("x").unwrap();
    assert_eq!(root.tag(), AstNodeType::Literal);
    match &root.node {
        Expr::Literal { token } => {
            assert_eq!(token.kind, TokenType::LiteralIdentifier("x".to_string()))
        }
        Expr::ExprBinaryOp { .. } => panic!("expected a literal"),
    }
}

#[test]
fn non_integer_literal_is_an_evaluation_error() {
    assert_eq!(evaluate("'a' + 1"), Err(EvalError::NotAnInteger));
    assert_eq!(evaluate("1 - true"), Err(EvalError::NotAnInteger));
    assert_eq!(evaluate("x"), Err(EvalError::NotAnInteger));
}

#[test]
fn overflow_is_an_evaluation_error() {
    assert_eq!(evaluate("2147483647 + 1"), Err(EvalError::Overflow));
    assert_eq!(evaluate("0 - 2147483647 - 2"), Err(EvalError::Overflow));
    assert_eq!(evaluate("0 - 2147483647 - 1"), Ok(i32::MIN));
}

#[test]
fn operator_in_primary_position_is_rejected() {
    let e = parse_error("+ 1");
    assert_eq!(e.kind, ParseErrorKind::ExpectedPrimary);
    assert_eq!(e.position, 0);
    assert_eq!(e.found, Token::new(TokenType::Plus));
}

#[test]
fn missing_operand_reports_end_of_input() {
    let e = parse_error("1 +");
    assert_eq!(e.kind, ParseErrorKind::ExpectedPrimary);
    assert_eq!(e.position, 2);
    assert_eq!(e.found, Token::new(TokenType::EOF));
}

#[test]
fn unclosed_parenthesis_is_rejected() {
    let e = parse_error("(1 + 2");
    assert_eq!(e.kind, ParseErrorKind::ExpectedRparen);
    assert_eq!(e.position, 4);
    assert_eq!(e.found, Token::new(TokenType::EOF));
}

#[test]
fn trailing_tokens_are_rejected() {
    let e = parse_error("1 2");
    assert_eq!(e.kind, ParseErrorKind::TrailingInput);
    assert_eq!(e.position, 1);
    assert_eq!(e.found, Token::new(TokenType::LiteralInteger(2)));
    assert_eq!(parse_error("1 * 2").kind, ParseErrorKind::TrailingInput);
}

#[test]
fn empty_token_list_reports_end_of_input() {
    let mut parser = Parser::new(Vec::new());
    let e = parser.parse().unwrap_err();
    assert_eq!(e.kind, ParseErrorKind::ExpectedPrimary);
    assert_eq!(e.position, 0);
    assert_eq!(e.found, Token::new(TokenType::EOF));
}

#[test]
fn parsing_twice_gives_the_same_tree() {
    let mut tokenizer = Tokenizer::new("4 - 1 + 2".to_string());
    let mut parser = Parser::new(tokenizer.tokenize().unwrap());
    let first = parser.parse().unwrap();
    let second = parser.parse().unwrap();
    assert_eq!(first, second);
    assert_eq!(first.eval(), Ok(5));
}
