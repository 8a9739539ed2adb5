use vstd::prelude::*;

use crate::expression::{BinaryOperator, Expression, UnaryOperator};
use crate::lexer::{lex, lex_spec, view_tokens, LexItem};

verus! {

/// A token that the grammar required at some point and did not find.
#[derive(Debug, Clone, Copy, PartialEq, Eq, Structural)]
pub enum Expected {
    OpenParen,
    Comma,
    CloseParen,
    Arrow,
    VariableName,
    Then,
    Else,
}

/// Why parsing failed.
#[derive(Debug, Clone, Copy, PartialEq, Eq, Structural)]
pub enum ParseError {
    UnexpectedEndOfInput,
    ExpectedExpression,
    ExpectedToken(Expected),
}

/// The human-readable message of a parsing error.
pub open spec fn parse_error_text(e: ParseError) -> Seq<char> {
    match e {
        ParseError::UnexpectedEndOfInput => "Unexpected end of input"@,
        ParseError::ExpectedExpression => "Expected expression"@,
        ParseError::ExpectedToken(Expected::OpenParen) => "Expected opening parenthesis '('"@,
        ParseError::ExpectedToken(Expected::Comma) => "Expected comma ','"@,
        ParseError::ExpectedToken(Expected::CloseParen) => "Expected closing parenthesis ')'"@,
        ParseError::ExpectedToken(Expected::Arrow) => "Expected '=>' arrow after function parameter"@,
        ParseError::ExpectedToken(Expected::VariableName) =>
            "Expected variable name as function parameter"@,
        ParseError::ExpectedToken(Expected::Then) => "Expected 'then' keyword"@,
        ParseError::ExpectedToken(Expected::Else) => "Expected 'else' keyword"@,
    }
}

impl ParseError {
    /// The human-readable message of the error.
    pub fn message(&self) -> (r: String)
        ensures
            r@ == parse_error_text(*self),
    {
        let text = match self {
            ParseError::UnexpectedEndOfInput => "Unexpected end of input",
            ParseError::ExpectedExpression => "Expected expression",
            ParseError::ExpectedToken(Expected::OpenParen) => "Expected opening parenthesis '('",
            ParseError::ExpectedToken(Expected::Comma) => "Expected comma ','",
            ParseError::ExpectedToken(Expected::CloseParen) => "Expected closing parenthesis ')'",
            ParseError::ExpectedToken(Expected::Arrow) =>
                "Expected '=>' arrow after function parameter",
            ParseError::ExpectedToken(Expected::VariableName) =>
                "Expected variable name as function parameter",
            ParseError::ExpectedToken(Expected::Then) => "Expected 'then' keyword",
            ParseError::ExpectedToken(Expected::Else) => "Expected 'else' keyword",
        };
        <String as StringExecFns>::from_str(text)
    }
}

/// Whether the token at `p` is the one `kind` names.
pub open spec fn has_token(toks: Seq<LexItem>, p: int, kind: Expected) -> bool {
    0 <= p < toks.len() && match kind {
        Expected::OpenParen => toks[p] is OpenParen,
        Expected::Comma => toks[p] is Comma,
        Expected::CloseParen => toks[p] is CloseParen,
        Expected::Arrow => toks[p] is Arrow,
        Expected::VariableName => toks[p] is Variable,
        Expected::Then => toks[p] is Then,
        Expected::Else => toks[p] is Else,
    }
}

/// The expression that starts at position `pos` of `toks`, with the position just
/// after it, or the first error met.
///
/// Every success ends strictly after `pos` (`Parser::parse_expression` proves it),
/// so the tests `pos < p` below always hold; they are there so that the
/// definition is seen to terminate.
pub open spec fn parse_at(toks: Seq<LexItem>, pos: int) -> Result<(Expression, int), ParseError>
    decreases toks.len() - pos,
{
    if pos < 0 || pos >= toks.len() {
        Err(ParseError::UnexpectedEndOfInput)
    } else {
        match toks[pos] {
            LexItem::Integer(n) => Ok((Expression::Integer(n), pos + 1)),
            LexItem::Variable(x) => Ok((Expression::Variable(x), pos + 1)),
            LexItem::Boolean(b) => Ok((Expression::Boolean(b), pos + 1)),
            LexItem::UnaryOp(op) => match parse_at(toks, pos + 1) {
                Ok((c, p)) => Ok((Expression::UnaryOp { op, child: Box::new(c) }, p)),
                Err(e) => Err(e),
            },
            LexItem::BinaryOp(op) => if !has_token(toks, pos + 1, Expected::OpenParen) {
                Err(ParseError::ExpectedToken(Expected::OpenParen))
            } else {
                match parse_at(toks, pos + 2) {
                    Ok((l, p1)) => if !(pos < p1 && has_token(toks, p1, Expected::Comma)) {
                        Err(ParseError::ExpectedToken(Expected::Comma))
                    } else {
                        match parse_at(toks, p1 + 1) {
                            Ok((r, p2)) => if !(pos < p2 && has_token(
                                toks,
                                p2,
                                Expected::CloseParen,
                            )) {
                                Err(ParseError::ExpectedToken(Expected::CloseParen))
                            } else {
                                Ok(
                                    (
                                        Expression::BinaryOp {
                                            op,
                                            lhs: Box::new(l),
                                            rhs: Box::new(r),
                                        },
                                        p2 + 1,
                                    ),
                                )
                            },
                            Err(e) => Err(e),
                        }
                    },
                    Err(e) => Err(e),
                }
            },
            LexItem::Func => if !has_token(toks, pos + 1, Expected::VariableName) {
                Err(ParseError::ExpectedToken(Expected::VariableName))
            } else if !has_token(toks, pos + 2, Expected::Arrow) {
                Err(ParseError::ExpectedToken(Expected::Arrow))
            } else {
                match parse_at(toks, pos + 3) {
                    Ok((body, p)) => Ok(
                        (
                            Expression::Func {
                                param: toks[pos + 1]->Variable_0,
                                body: Box::new(body),
                            },
                            p,
                        ),
                    ),
                    Err(e) => Err(e),
                }
            },
            LexItem::Apply => if !has_token(toks, pos + 1, Expected::OpenParen) {
                Err(ParseError::ExpectedToken(Expected::OpenParen))
            } else {
                match parse_at(toks, pos + 2) {
                    Ok((f, p1)) => if !(pos < p1 && has_token(toks, p1, Expected::Comma)) {
                        Err(ParseError::ExpectedToken(Expected::Comma))
                    } else {
                        match parse_at(toks, p1 + 1) {
                            Ok((a, p2)) => if !(pos < p2 && has_token(
                                toks,
                                p2,
                                Expected::CloseParen,
                            )) {
                                Err(ParseError::ExpectedToken(Expected::CloseParen))
                            } else {
                                Ok(
                                    (
                                        Expression::Apply {
                                            func_expr: Box::new(f),
                                            arg_expr: Box::new(a),
                                        },
                                        p2 + 1,
                                    ),
                                )
                            },
                            Err(e) => Err(e),
                        }
                    },
                    Err(e) => Err(e),
                }
            },
            LexItem::If => match parse_at(toks, pos + 1) {
                Ok((c, p1)) => if !(pos < p1 && has_token(toks, p1, Expected::Then)) {
                    Err(ParseError::ExpectedToken(Expected::Then))
                } else {
                    match parse_at(toks, p1 + 1) {
                        Ok((t, p2)) => if !(pos < p2 && has_token(toks, p2, Expected::Else)) {
                            Err(ParseError::ExpectedToken(Expected::Else))
                        } else {
                            match parse_at(toks, p2 + 1) {
                                Ok((e, p3)) => Ok(
                                    (
                                        Expression::If {
                                            condition: Box::new(c),
                                            then_expr: Box::new(t),
                                            else_expr: Box::new(e),
                                        },
                                        p3,
                                    ),
                                ),
                                Err(err) => Err(err),
                            }
                        },
                        Err(err) => Err(err),
                    }
                },
                Err(err) => Err(err),
            },
            _ => Err(ParseError::ExpectedExpression),
        }
    }
}

/// The model of an outcome with an exec position.
pub open spec fn outcome_view(r: Result<(Expression, usize), ParseError>) -> Result<
    (Expression, int),
    ParseError,
> {
    match r {
        Ok((e, p)) => Ok((e, p as int)),
        Err(err) => Err(err),
    }
}

/// A recursive-descent parser over a sequence of tokens, with a cursor.
pub struct Parser {
    pub tokens: Vec<LexItem>,
    pub current: usize,
}

impl Parser {
    /// The parser of a text, at its start; a text that does not lex gives no tokens.
    pub fn new(program: &str) -> (p: Parser)
        ensures
            p.current == 0,
            match lex_spec(program@) {
                Ok(ts) => view_tokens(p.tokens@) == ts,
                Err(_) => p.tokens@.len() == 0,
            },
    {
        let tokens = match lex(program) {
            Ok(t) => t,
            Err(_) => Vec::new(),
        };
        Parser { tokens, current: 0 }
    }

    /// The parser of a sequence of tokens, at its start.
    pub fn from_tokens(tokens: Vec<LexItem>) -> (p: Parser)
        ensures
            p.tokens == tokens,
            p.current == 0,
    {
        Parser { tokens, current: 0 }
    }

    /// Parses one expression from the cursor on and moves the cursor past it;
    /// tokens after it are left unread.
    pub fn parse(&mut self) -> (r: Result<Expression, ParseError>)
        ensures
            final(self).tokens == old(self).tokens,
            match parse_at(old(self).tokens@, old(self).current as int) {
                Ok((e, p)) => r == Ok::<Expression, ParseError>(e) && final(self).current == p,
                Err(err) => r == Err::<Expression, ParseError>(err) && final(self).current
                    == old(self).current,
            },
    {
        if self.current > self.tokens.len() {
            return Err(ParseError::UnexpectedEndOfInput);
        }
        match self.parse_expression(self.current) {
            Ok((e, p)) => {
                self.current = p;
                Ok(e)
            },
            Err(err) => Err(err),
        }
    }

    fn token_at_is(&self, p: usize, kind: Expected) -> (b: bool)
        ensures
            b == has_token(self.tokens@, p as int, kind),
    {
        if p >= self.tokens.len() {
            return false;
        }
        let t = &self.tokens[p];
        match kind {
            Expected::OpenParen => matches!(t, LexItem::OpenParen),
            Expected::Comma => matches!(t, LexItem::Comma),
            Expected::CloseParen => matches!(t, LexItem::CloseParen),
            Expected::Arrow => matches!(t, LexItem::Arrow),
            Expected::VariableName => matches!(t, LexItem::Variable(_)),
            Expected::Then => matches!(t, LexItem::Then),
            Expected::Else => matches!(t, LexItem::Else),
        }
    }

    fn parse_expression(&self, pos: usize) -> (r: Result<(Expression, usize), ParseError>)
        requires
            pos <= self.tokens@.len(),
        ensures
            outcome_view(r) == parse_at(self.tokens@, pos as int),
            r is Ok ==> pos < r->Ok_0.1 <= self.tokens@.len(),
        decreases self.tokens@.len() - pos, 1nat,
    {
        if pos >= self.tokens.len() {
            return Err(ParseError::UnexpectedEndOfInput);
        }
        match &self.tokens[pos] {
            LexItem::Integer(value) => Ok((Expression::Integer(*value), pos + 1)),
            LexItem::Variable(name) => Ok((Expression::Variable(name.clone()), pos + 1)),
            LexItem::Boolean(value) => Ok((Expression::Boolean(*value), pos + 1)),
            LexItem::UnaryOp(op) => self.parse_unary_expression(*op, pos),
            LexItem::BinaryOp(op) => self.parse_binary_expression(*op, pos),
            LexItem::Func => self.parse_func_expression(pos),
            LexItem::Apply => self.parse_apply_expression(pos),
            LexItem::If => self.parse_if_expression(pos),
            _ => Err(ParseError::ExpectedExpression),
        }
    }

    fn parse_unary_expression(&self, op: UnaryOperator, pos: usize) -> (r: Result<
        (Expression, usize),
        ParseError,
    >)
        requires
            pos < self.tokens@.len() <= usize::MAX,
            self.tokens@[pos as int] == LexItem::UnaryOp(op),
        ensures
            outcome_view(r) == parse_at(self.tokens@, pos as int),
            r is Ok ==> pos < r->Ok_0.1 <= self.tokens@.len(),
        decreases self.tokens@.len() - pos, 0nat,
    {
        let (child, p) = match self.parse_expression(pos + 1) {
            Ok(x) => x,
            Err(e) => return Err(e),
        };
        Ok((Expression::UnaryOp { op, child: Box::new(child) }, p))
    }

    fn parse_binary_expression(&self, op: BinaryOperator, pos: usize) -> (r: Result<
        (Expression, usize),
        ParseError,
    >)
        requires
            pos < self.tokens@.len() <= usize::MAX,
            self.tokens@[pos as int] == LexItem::BinaryOp(op),
        ensures
            outcome_view(r) == parse_at(self.tokens@, pos as int),
            r is Ok ==> pos < r->Ok_0.1 <= self.tokens@.len(),
        decreases self.tokens@.len() - pos, 0nat,
    {
        if !self.token_at_is(pos + 1, Expected::OpenParen) {
            return Err(ParseError::ExpectedToken(Expected::OpenParen));
        }
        let (lhs, p1) = match self.parse_expression(pos + 2) {
            Ok(x) => x,
            Err(e) => return Err(e),
        };
        if !self.token_at_is(p1, Expected::Comma) {
            return Err(ParseError::ExpectedToken(Expected::Comma));
        }
        let (rhs, p2) = match self.parse_expression(p1 + 1) {
            Ok(x) => x,
            Err(e) => return Err(e),
        };
        if !self.token_at_is(p2, Expected::CloseParen) {
            return Err(ParseError::ExpectedToken(Expected::CloseParen));
        }
        Ok((Expression::BinaryOp { op, lhs: Box::new(lhs), rhs: Box::new(rhs) }, p2 + 1))
    }

    fn parse_func_expression(&self, pos: usize) -> (r: Result<(Expression, usize), ParseError>)
        requires
            pos < self.tokens@.len() <= usize::MAX,
            self.tokens@[pos as int] == LexItem::Func,
        ensures
            outcome_view(r) == parse_at(self.tokens@, pos as int),
            r is Ok ==> pos < r->Ok_0.1 <= self.tokens@.len(),
        decreases self.tokens@.len() - pos, 0nat,
    {
        if pos + 1 >= self.tokens.len() {
            return Err(ParseError::ExpectedToken(Expected::VariableName));
        }
        let param = match &self.tokens[pos + 1] {
            LexItem::Variable(name) => name.clone(),
            _ => return Err(ParseError::ExpectedToken(Expected::VariableName)),
        };
        if !self.token_at_is(pos + 2, Expected::Arrow) {
            return Err(ParseError::ExpectedToken(Expected::Arrow));
        }
        let (body, p) = match self.parse_expression(pos + 3) {
            Ok(x) => x,
            Err(e) => return Err(e),
        };
        Ok((Expression::Func { param, body: Box::new(body) }, p))
    }

    fn parse_apply_expression(&self, pos: usize) -> (r: Result<(Expression, usize), ParseError>)
        requires
            pos < self.tokens@.len() <= usize::MAX,
            self.tokens@[pos as int] == LexItem::Apply,
        ensures
            outcome_view(r) == parse_at(self.tokens@, pos as int),
            r is Ok ==> pos < r->Ok_0.1 <= self.tokens@.len(),
        decreases self.tokens@.len() - pos, 0nat,
    {
        if !self.token_at_is(pos + 1, Expected::OpenParen) {
            return Err(ParseError::ExpectedToken(Expected::OpenParen));
        }
        let (func_expr, p1) = match self.parse_expression(pos + 2) {
            Ok(x) => x,
            Err(e) => return Err(e),
        };
        if !self.token_at_is(p1, Expected::Comma) {
            return Err(ParseError::ExpectedToken(Expected::Comma));
        }
        let (arg_expr, p2) = match self.parse_expression(p1 + 1) {
            Ok(x) => x,
            Err(e) => return Err(e),
        };
        if !self.token_at_is(p2, Expected::CloseParen) {
            return Err(ParseError::ExpectedToken(Expected::CloseParen));
        }
        Ok(
            (
                Expression::Apply { func_expr: Box::new(func_expr), arg_expr: Box::new(arg_expr) },
                p2 + 1,
            ),
        )
    }

    fn parse_if_expression(&self, pos: usize) -> (r: Result<(Expression, usize), ParseError>)
        requires
            pos < self.tokens@.len() <= usize::MAX,
            self.tokens@[pos as int] == LexItem::If,
        ensures
            outcome_view(r) == parse_at(self.tokens@, pos as int),
            r is Ok ==> pos < r->Ok_0.1 <= self.tokens@.len(),
        decreases self.tokens@.len() - pos, 0nat,
    {
        let (condition, p1) = match self.parse_expression(pos + 1) {
            Ok(x) => x,
            Err(e) => return Err(e),
        };
        if !self.token_at_is(p1, Expected::Then) {
            return Err(ParseError::ExpectedToken(Expected::Then));
        }
        let (then_expr, p2) = match self.parse_expression(p1 + 1) {
            Ok(x) => x,
            Err(e) => return Err(e),
        };
        if !self.token_at_is(p2, Expected::Else) {
            return Err(ParseError::ExpectedToken(Expected::Else));
        }
        let (else_expr, p3) = match self.parse_expression(p2 + 1) {
            Ok(x) => x,
            Err(e) => return Err(e),
        };
        Ok(
            (
                Expression::If {
                    condition: Box::new(condition),
                    then_expr: Box::new(then_expr),
                    else_expr: Box::new(else_expr),
                },
                p3,
            ),
        )
    }
}

} // verus!
