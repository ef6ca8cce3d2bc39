//! The parser, which builds a syntax tree from tokens, and the evaluator, which
//! computes the tree's integer value.
use vstd::prelude::*;

use crate::lexer::{kinds, Token, TokenKind, TokenType};

verus! {

/// The operators that combine two subtrees.
#[derive(Debug, Clone, Copy, PartialEq, Eq, Structural)]
pub enum Operator {
    Plus,
    Minus,
}

/// The two kinds of syntax tree node.
#[derive(Debug, Clone, Copy, PartialEq, Eq, Structural)]
pub enum AstNodeType {
    Literal,
    ExprBinaryOp,
}

/// What a node holds: one literal token, or an operator over two subtrees.
#[derive(Debug, PartialEq)]
pub enum Expr {
    Literal { token: Token },
    ExprBinaryOp { left: Box<AstNode>, operator: Operator, right: Box<AstNode> },
}

/// A node of the syntax tree; it owns its subtrees.
#[derive(Debug, PartialEq)]
pub struct AstNode {
    pub node: Expr,
}

/// Mathematical model of a syntax tree.
pub enum Ast {
    Literal(TokenKind),
    BinaryOp(Box<Ast>, Operator, Box<Ast>),
}

pub open spec fn ast_of(n: &AstNode) -> Ast
    decreases n,
{
    match &n.node {
        Expr::Literal { token } => Ast::Literal(token@),
        Expr::ExprBinaryOp { left, operator, right } => Ast::BinaryOp(
            Box::new(ast_of(left)),
            *operator,
            Box::new(ast_of(right)),
        ),
    }
}

impl View for AstNode {
    type V = Ast;

    open spec fn view(&self) -> Ast {
        ast_of(self)
    }
}

impl AstNode {
    /// Which kind of node this is.
    pub fn tag(&self) -> (r: AstNodeType)
        ensures
            r == (if self@ is Literal {
                AstNodeType::Literal
            } else {
                AstNodeType::ExprBinaryOp
            }),
    {
        match &self.node {
            Expr::Literal { .. } => AstNodeType::Literal,
            Expr::ExprBinaryOp { .. } => AstNodeType::ExprBinaryOp,
        }
    }
}

/// A failure of evaluation.
#[derive(Debug, Clone, Copy, PartialEq, Eq, Structural)]
pub enum EvalError {
    /// A literal that is not an integer stands where a number is needed.
    NotAnInteger,
    /// An intermediate result does not fit in an `i32`.
    Overflow,
}

pub open spec fn apply(op: Operator, x: int, y: int) -> int {
    match op {
        Operator::Plus => x + y,
        Operator::Minus => x - y,
    }
}

/// The value of a tree: integer literals are their values; an operator node
/// combines the values of its subtrees, the left one's error first.
pub open spec fn eval_ast(a: Ast) -> Result<i32, EvalError>
    decreases a,
{
    match a {
        Ast::Literal(TokenKind::LiteralInteger(v)) => Ok(v),
        Ast::Literal(_) => Err(EvalError::NotAnInteger),
        Ast::BinaryOp(l, op, r) => match eval_ast(*l) {
            Err(e) => Err(e),
            Ok(x) => match eval_ast(*r) {
                Err(e) => Err(e),
                Ok(y) => {
                    let v = apply(op, x as int, y as int);
                    if i32::MIN <= v <= i32::MAX {
                        Ok(v as i32)
                    } else {
                        Err(EvalError::Overflow)
                    }
                },
            },
        },
    }
}

/// Things that can be evaluated to an integer.
pub trait Evaluatable {
    spec fn value(&self) -> Result<i32, EvalError>;

    fn eval(&self) -> (r: Result<i32, EvalError>)
        ensures
            r == self.value(),
    ;
}

impl Evaluatable for AstNode {
    open spec fn value(&self) -> Result<i32, EvalError> {
        eval_ast(self@)
    }

    fn eval(&self) -> (r: Result<i32, EvalError>)
        decreases self,
    {
        match &self.node {
            Expr::Literal { token } => match &token.kind {
                TokenType::LiteralInteger(v) => Ok(*v),
                _ => Err(EvalError::NotAnInteger),
            },
            Expr::ExprBinaryOp { left, operator, right } => {
                let x = match left.eval() {
                    Ok(x) => x,
                    Err(e) => {
                        return Err(e);
                    },
                };
                let y = match right.eval() {
                    Ok(y) => y,
                    Err(e) => {
                        return Err(e);
                    },
                };
                match operator {
                    Operator::Plus => x.checked_add(y).ok_or(EvalError::Overflow),
                    Operator::Minus => x.checked_sub(y).ok_or(EvalError::Overflow),
                }
            },
        }
    }
}


/// Why parsing stopped.
#[derive(Debug, Clone, Copy, PartialEq, Eq, Structural)]
pub enum ParseErrorKind {
    /// The token cannot begin a primary expression.
    ExpectedPrimary,
    /// A parenthesised expression is not closed by `)`.
    ExpectedRparen,
    /// Tokens remain after a complete expression.
    TrailingInput,
}

/// A parse failure: what was expected, and the token found at `position`
/// (end of input where the sequence runs out).
#[derive(Debug, Clone, PartialEq)]
pub struct ParseError {
    pub kind: ParseErrorKind,
    pub position: usize,
    pub found: Token,
}

/// The kind at index `i`; past the end of the sequence, end of input.
pub open spec fn kind_at(toks: Seq<TokenKind>, i: int) -> TokenKind {
    if 0 <= i < toks.len() {
        toks[i]
    } else {
        TokenKind::EOF
    }
}

/// The kinds a literal node may wrap.
pub open spec fn is_literal_kind(k: TokenKind) -> bool {
    ||| k is LiteralInteger
    ||| k is LiteralString
    ||| k is LiteralIdentifier
    ||| k is LiteralTrue
    ||| k is LiteralFalse
}

/// The operator that `+` and `-` stand for.
pub open spec fn additive_operator(k: TokenKind) -> Option<Operator> {
    match k {
        TokenKind::Plus => Some(Operator::Plus),
        TokenKind::Minus => Some(Operator::Minus),
        _ => None,
    }
}

/// A parsed tree with the index just past its tokens, or the failure with its index.
pub type ParseStep = Result<(Ast, int), (ParseErrorKind, int)>;

/// `primary -> literal | "(" term ")"`, at index `i`.
pub open spec fn parse_primary(toks: Seq<TokenKind>, i: int) -> ParseStep
    decreases toks.len() - i, 0int,
{
    let k = kind_at(toks, i);
    if 0 <= i < toks.len() && is_literal_kind(k) {
        Ok((Ast::Literal(k), i + 1))
    } else if 0 <= i < toks.len() && k is Lparen {
        match parse_term(toks, i + 1) {
            Err(e) => Err(e),
            Ok((inner, j)) => if 0 <= j < toks.len() && kind_at(toks, j) is Rparen {
                Ok((inner, j + 1))
            } else {
                Err((ParseErrorKind::ExpectedRparen, j))
            },
        }
    } else {
        Err((ParseErrorKind::ExpectedPrimary, i))
    }
}

/// `term -> primary (("+" | "-") primary)*`, at index `i`, folded to the left.
pub open spec fn parse_term(toks: Seq<TokenKind>, i: int) -> ParseStep
    decreases toks.len() - i, 2int,
{
    match parse_primary(toks, i) {
        Err(e) => Err(e),
        Ok((first, j)) => if i < j <= toks.len() {
            parse_term_rest(toks, first, j)
        } else {
            Ok((first, j))
        },
    }
}

/// The operator-primary pairs of a term from index `i`, folded onto `lhs`.
pub open spec fn parse_term_rest(toks: Seq<TokenKind>, lhs: Ast, i: int) -> ParseStep
    decreases toks.len() - i, 1int,
{
    match additive_operator(kind_at(toks, i)) {
        Some(op) => if 0 <= i < toks.len() {
            match parse_primary(toks, i + 1) {
                Err(e) => Err(e),
                Ok((rhs, j)) => {
                    let combined = Ast::BinaryOp(Box::new(lhs), op, Box::new(rhs));
                    if i < j <= toks.len() {
                        parse_term_rest(toks, combined, j)
                    } else {
                        Ok((combined, j))
                    }
                },
            }
        } else {
            Ok((lhs, i))
        },
        None => Ok((lhs, i)),
    }
}

/// Parsing a whole token sequence: one term, then end of input.
pub open spec fn parse_tokens(toks: Seq<TokenKind>) -> Result<Ast, (ParseErrorKind, int)> {
    match parse_term(toks, 0) {
        Err(e) => Err(e),
        Ok((a, j)) => if kind_at(toks, j) is EOF {
            Ok(a)
        } else {
            Err((ParseErrorKind::TrailingInput, j))
        },
    }
}

pub open spec fn parse_error_view(e: ParseError) -> (ParseErrorKind, int) {
    (e.kind, e.position as int)
}

pub open spec fn step_view(r: Result<AstNode, ParseError>, j: int) -> ParseStep {
    match r {
        Ok(n) => Ok((n@, j)),
        Err(e) => Err(parse_error_view(e)),
    }
}

pub open spec fn parse_result_view(r: Result<AstNode, ParseError>) -> Result<Ast, (ParseErrorKind, int)> {
    match r {
        Ok(n) => Ok(n@),
        Err(e) => Err(parse_error_view(e)),
    }
}

/// An error reports the token found where it stopped.
pub open spec fn reports_found(toks: Seq<TokenKind>, r: Result<AstNode, ParseError>) -> bool {
    r matches Err(e) ==> e.found@ == kind_at(toks, e.position as int)
}

/// Builds a syntax tree from a token sequence by recursive descent, with one token
/// of lookahead and no backtracking.
#[derive(Debug)]
pub struct Parser {
    tokenlist: Vec<Token>,
    position: usize,
}

impl Parser {
    pub closed spec fn tokens(&self) -> Seq<TokenKind> {
        kinds(self.tokenlist@)
    }

    pub closed spec fn cursor(&self) -> int {
        self.position as int
    }

    pub closed spec fn wf(&self) -> bool {
        self.position <= self.tokenlist.len()
    }

    pub fn new(tokenlist: Vec<Token>) -> (r: Parser)
        ensures
            r.tokens() == kinds(tokenlist@),
            r.cursor() == 0,
            r.wf(),
    {
        Parser { tokenlist, position: 0 }
    }

    /// Parses the whole token sequence from its start: one term, which must be
    /// followed by end of input.
    pub fn parse(&mut self) -> (r: Result<AstNode, ParseError>)
        ensures
            final(self).tokens() == old(self).tokens(),
            final(self).wf(),
            parse_result_view(r) == parse_tokens(old(self).tokens()),
            reports_found(old(self).tokens(), r),
    {
        self.position = 0;
        let expr = match self.prod_term() {
            Ok(e) => e,
            Err(e) => {
                return Err(e);
            },
        };
        if self.current_kind().is_eof() {
            Ok(expr)
        } else {
            Err(self.error_here(ParseErrorKind::TrailingInput))
        }
    }

    /// The token under the cursor, if the sequence has not run out.
    fn get_current_token(&self) -> (r: Option<&Token>)
        ensures
            r == (if self.position < self.tokenlist@.len() {
                Some(&self.tokenlist@[self.cursor()])
            } else {
                None
            }),
    {
        if self.position < self.tokenlist.len() {
            Some(&self.tokenlist[self.position])
        } else {
            None
        }
    }

    /// A copy of the kind under the cursor; end of input where the sequence has run out.
    fn current_kind(&self) -> (r: TokenType)
        ensures
            r@ == kind_at(self.tokens(), self.cursor()),
    {
        match self.get_current_token() {
            Some(token) => token.kind.duplicate(),
            None => TokenType::EOF,
        }
    }

    /// An error of the given kind at the cursor.
    fn error_here(&self, kind: ParseErrorKind) -> (e: ParseError)
        requires
            self.wf(),
        ensures
            e.kind == kind,
            e.position == self.position,
            e.found@ == kind_at(self.tokens(), self.cursor()),
    {
        ParseError { kind, position: self.position, found: Token::new(self.current_kind()) }
    }

    /// `primary -> literal | "(" term ")"`: any other token is rejected.
    fn prod_primary(&mut self) -> (r: Result<AstNode, ParseError>)
        requires
            old(self).wf(),
        ensures
            final(self).tokens() == old(self).tokens(),
            final(self).wf(),
            step_view(r, final(self).cursor()) == parse_primary(old(self).tokens(), old(self).cursor()),
            reports_found(old(self).tokens(), r),
            r is Ok ==> old(self).cursor() < final(self).cursor(),
        decreases old(self).tokenlist@.len() - old(self).position, 0int,
    {
        let start = self.position;
        let kind = self.current_kind();
        if kind.is_literal() && start < self.tokenlist.len() {
            let node = AstNode { node: Expr::Literal { token: Token::new(kind) } };
            self.position = start + 1;
            return Ok(node);
        }
        if kind.is_lparen() && start < self.tokenlist.len() {
            self.position = start + 1;
            let inner = match self.prod_term() {
                Ok(inner) => inner,
                Err(e) => {
                    return Err(e);
                },
            };
            if self.current_kind().is_rparen() && self.position < self.tokenlist.len() {
                self.position = self.position + 1;
                return Ok(inner);
            }
            return Err(self.error_here(ParseErrorKind::ExpectedRparen));
        }
        Err(self.error_here(ParseErrorKind::ExpectedPrimary))
    }

    /// `term -> primary (("+" | "-") primary)*`, folded to the left:
    /// `a - b + c` is `(a - b) + c`.
    fn prod_term(&mut self) -> (r: Result<AstNode, ParseError>)
        requires
            old(self).wf(),
        ensures
            final(self).tokens() == old(self).tokens(),
            final(self).wf(),
            step_view(r, final(self).cursor()) == parse_term(old(self).tokens(), old(self).cursor()),
            reports_found(old(self).tokens(), r),
            r is Ok ==> old(self).cursor() < final(self).cursor(),
        decreases old(self).tokenlist@.len() - old(self).position, 1int,
    {
        let ghost toks = self.tokens();
        let ghost start = self.cursor();
        let mut expr = match self.prod_primary() {
            Ok(e) => e,
            Err(e) => {
                return Err(e);
            },
        };
        loop
            invariant
                self.wf(),
                self.tokens() == toks,
                toks == old(self).tokens(),
                start == old(self).cursor(),
                start < self.cursor(),
                parse_term(toks, start) == parse_term_rest(toks, expr@, self.cursor()),
            decreases self.tokenlist@.len() - self.position,
        {
            let op = match self.current_kind().additive_operator() {
                Some(op) => op,
                None => {
                    return Ok(expr);
                },
            };
            if self.position >= self.tokenlist.len() {
                return Ok(expr);
            }
            self.position = self.position + 1;
            let rhs = match self.prod_primary() {
                Ok(rhs) => rhs,
                Err(e) => {
                    return Err(e);
                },
            };
            expr = AstNode {
                node: Expr::ExprBinaryOp { left: Box::new(expr), operator: op, right: Box::new(rhs) },
            };
        }
    }
}

impl TokenType {
    pub fn is_literal(&self) -> (r: bool)
        ensures
            r == is_literal_kind(self@),
    {
        match self {
            TokenType::LiteralInteger(_) => true,
            TokenType::LiteralString(_) => true,
            TokenType::LiteralIdentifier(_) => true,
            TokenType::LiteralTrue => true,
            TokenType::LiteralFalse => true,
            _ => false,
        }
    }

    pub fn is_lparen(&self) -> (r: bool)
        ensures
            r == self@ is Lparen,
    {
        matches!(self, TokenType::Lparen)
    }

    pub fn is_rparen(&self) -> (r: bool)
        ensures
            r == self@ is Rparen,
    {
        matches!(self, TokenType::Rparen)
    }

    pub fn is_eof(&self) -> (r: bool)
        ensures
            r == self@ is EOF,
    {
        matches!(self, TokenType::EOF)
    }

    /// The operator a `+` or `-` token stands for.
    pub fn additive_operator(&self) -> (r: Option<Operator>)
        ensures
            r == additive_operator(self@),
    {
        match self {
            TokenType::Plus => Some(Operator::Plus),
            TokenType::Minus => Some(Operator::Minus),
            _ => None,
        }
    }
}

} // verus!
