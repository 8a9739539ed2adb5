use exprlang::{
    lex, run, run_tokens, substitute, BinaryOperator, EvalError, Expected, Expression, LexError,
    LexItem, MismatchSite, ParseError, Parser, UnaryOperator,
};

fn parse_text(text: &str) -> Result<Expression, ParseError> {
    let tokens = lex(text).expect("text should lex");
    Parser::from_tokens(tokens).parse()
}

fn eval_text(text: &str) -> Result<Expression, EvalError> {
    parse_text(text).expect("text should parse").eval()
}

fn integer(n: i64) -> Expression {
    Expression::Integer(n)
}

fn binary(op: BinaryOperator, l: Expression, r: Expression) -> Expression {
    Expression::BinaryOp { op, lhs: Box::new(l), rhs: Box::new(r) }
}

#[test]
fn rendered_parse_reparses() {
    for text in ["+(1, 1)", "apply(func x => x, 1)", "!T", "func x => +(x, 1)", "if T then 1 else 2"] {
        let first = parse_text(text).unwrap();
        let again = parse_text(&first.render());
        assert!(again.is_ok(), "{} rendered as {}", text, first.render());
    }
}

#[test]
fn rendered_condition_with_operator_does_not_reparse() {
    let first = parse_text("if <(1, 5) then 8 else 9").unwrap();
    assert_eq!(first.render(), "if 1 < 5 then 8 else 9");
    assert_eq!(
        parse_text(&first.render()),
        Err(ParseError::ExpectedToken(Expected::Then))
    );
}

#[test]
fn literals_evaluate_to_themselves() {
    for n in [0, 7, -3, i64::MAX, i64::MIN] {
        assert_eq!(integer(n).eval(), Ok(integer(n)));
    }
    assert_eq!(Expression::Boolean(false).eval(), Ok(Expression::Boolean(false)));
}

#[test]
fn binary_operators_on_literals() {
    assert_eq!(binary(BinaryOperator::Add, integer(-4), integer(9)).eval(), Ok(integer(5)));
    assert_eq!(binary(BinaryOperator::Subtract, integer(4), integer(9)).eval(), Ok(integer(-5)));
    assert_eq!(binary(BinaryOperator::Multiply, integer(-4), integer(9)).eval(), Ok(integer(-36)));
    assert_eq!(binary(BinaryOperator::Divide, integer(-7), integer(2)).eval(), Ok(integer(-3)));
    assert_eq!(binary(BinaryOperator::Divide, integer(7), integer(-2)).eval(), Ok(integer(-3)));
    assert_eq!(
        binary(BinaryOperator::LessThan, integer(3), integer(3)).eval(),
        Ok(Expression::Boolean(false))
    );
    assert_eq!(
        binary(BinaryOperator::Equals, integer(3), integer(3)).eval(),
        Ok(Expression::Boolean(true))
    );
    let t = Expression::Boolean(true);
    let f = Expression::Boolean(false);
    assert_eq!(binary(BinaryOperator::And, t.clone(), f.clone()).eval(), Ok(f.clone()));
    assert_eq!(binary(BinaryOperator::Or, t.clone(), f.clone()).eval(), Ok(t.clone()));
}

#[test]
fn if_true_skips_erroring_else_branch() {
    assert_eq!(eval_text("if T then 1 else +(T, T)"), Ok(integer(1)));
    assert_eq!(
        eval_text("if F then 1 else +(T, T)"),
        Err(EvalError::TypeMismatch(MismatchSite::Binary(BinaryOperator::Add)))
    );
}

#[test]
fn apply_substitutes_at_top_level() {
    assert_eq!(eval_text("apply(func x => +(x, 1), 2)"), Ok(integer(3)));
    assert_eq!(run("apply(func x => +(x, 1), 2)"), "3");
}

#[test]
fn substitution_does_not_enter_if_bodies() {
    assert_eq!(
        eval_text("apply(func x => if T then x else 0, 5)"),
        Ok(Expression::Variable("x".to_string()))
    );
    assert_eq!(run("apply(func x => if T then x else 0, 5)"), "x");
}

#[test]
fn truncated_binary_form_is_end_of_input() {
    assert_eq!(parse_text("+(1,"), Err(ParseError::UnexpectedEndOfInput));
    assert_eq!(run("+(1,"), "Error parsing expression: Unexpected end of input");
}

#[test]
fn identity_on_boolean() {
    assert_eq!(eval_text("apply(func x => x, T)"), Ok(Expression::Boolean(true)));
}

#[test]
fn lex_keywords_arrow_and_equals() {
    assert_eq!(
        lex("if then else func apply => = iff"),
        Ok(vec![
            LexItem::If,
            LexItem::Then,
            LexItem::Else,
            LexItem::Func,
            LexItem::Apply,
            LexItem::Arrow,
            LexItem::BinaryOp(BinaryOperator::Equals),
            LexItem::Variable("iff".to_string()),
        ])
    );
    assert_eq!(lex("="), Ok(vec![LexItem::BinaryOp(BinaryOperator::Equals)]));
    assert_eq!(lex("=>"), Ok(vec![LexItem::Arrow]));
    assert_eq!(lex(""), Ok(vec![]));
    assert_eq!(
        lex("\t!x*/<&|"),
        Ok(vec![
            LexItem::UnaryOp(UnaryOperator::Not),
            LexItem::Variable("x".to_string()),
            LexItem::BinaryOp(BinaryOperator::Multiply),
            LexItem::BinaryOp(BinaryOperator::Divide),
            LexItem::BinaryOp(BinaryOperator::LessThan),
            LexItem::BinaryOp(BinaryOperator::And),
            LexItem::BinaryOp(BinaryOperator::Or),
        ])
    );
}

#[test]
fn lex_digits_then_letters_split() {
    assert_eq!(
        lex("12ab"),
        Ok(vec![LexItem::Integer(12), LexItem::Variable("ab".to_string())])
    );
}

#[test]
fn lex_largest_integer() {
    assert_eq!(
        lex("9223372036854775807"),
        Ok(vec![LexItem::Integer(i64::MAX)])
    );
    assert_eq!(lex("007"), Ok(vec![LexItem::Integer(7)]));
}

#[test]
fn lex_integer_overflow() {
    assert_eq!(lex("9223372036854775808"), Err(LexError::IntegerOverflow));
    assert_eq!(lex("1 99999999999999999999999"), Err(LexError::IntegerOverflow));
}

#[test]
fn lex_unexpected_characters() {
    assert_eq!(lex("A"), Err(LexError::UnexpectedCharacter('A')));
    assert_eq!(lex("1\n2"), Err(LexError::UnexpectedCharacter('\n')));
    assert_eq!(lex("x_y"), Err(LexError::UnexpectedCharacter('_')));
    assert_eq!(
        LexError::UnexpectedCharacter('A').message(),
        "unexpected character A"
    );
}

#[test]
fn parse_errors() {
    assert_eq!(parse_text(""), Err(ParseError::UnexpectedEndOfInput));
    assert_eq!(parse_text(")"), Err(ParseError::ExpectedExpression));
    assert_eq!(parse_text("+ 1"), Err(ParseError::ExpectedToken(Expected::OpenParen)));
    assert_eq!(parse_text("+(1 2)"), Err(ParseError::ExpectedToken(Expected::Comma)));
    assert_eq!(parse_text("+(1, 2"), Err(ParseError::ExpectedToken(Expected::CloseParen)));
    assert_eq!(parse_text("func x 1"), Err(ParseError::ExpectedToken(Expected::Arrow)));
    assert_eq!(
        parse_text("func 1 => 2"),
        Err(ParseError::ExpectedToken(Expected::VariableName))
    );
    assert_eq!(parse_text("if T 1"), Err(ParseError::ExpectedToken(Expected::Then)));
    assert_eq!(parse_text("if T then 1 2"), Err(ParseError::ExpectedToken(Expected::Else)));
    assert_eq!(parse_text("apply 1"), Err(ParseError::ExpectedToken(Expected::OpenParen)));
}

#[test]
fn trailing_tokens_are_left_unread() {
    let mut parser = Parser::new("1 2 3");
    assert_eq!(parser.parse(), Ok(integer(1)));
    assert_eq!(parser.current, 1);
    assert_eq!(parser.parse(), Ok(integer(2)));
}

#[test]
fn parser_new_on_unlexable_text_has_no_tokens() {
    let mut parser = Parser::new("A");
    assert!(parser.tokens.is_empty());
    assert_eq!(parser.parse(), Err(ParseError::UnexpectedEndOfInput));
}

#[test]
fn eval_errors() {
    assert_eq!(
        eval_text("!1"),
        Err(EvalError::TypeMismatch(MismatchSite::Unary(UnaryOperator::Not)))
    );
    assert_eq!(
        eval_text("&(1, T)"),
        Err(EvalError::TypeMismatch(MismatchSite::Binary(BinaryOperator::And)))
    );
    assert_eq!(
        eval_text("+(T, T)"),
        Err(EvalError::TypeMismatch(MismatchSite::Binary(BinaryOperator::Add)))
    );
    assert_eq!(eval_text("if 1 then 2 else 3"), Err(EvalError::TypeMismatch(MismatchSite::If)));
    assert_eq!(eval_text("apply(1, 2)"), Err(EvalError::NotAFunction));
    assert_eq!(eval_text("/(1, 0)"), Err(EvalError::DivisionByZero));
    assert_eq!(
        eval_text("+(9223372036854775807, 1)"),
        Err(EvalError::IntegerOverflow(BinaryOperator::Add))
    );
    assert_eq!(
        binary(BinaryOperator::Divide, integer(i64::MIN), integer(-1)).eval(),
        Err(EvalError::IntegerOverflow(BinaryOperator::Divide))
    );
    assert_eq!(
        eval_text("apply(func x => +(x, y), 1)"),
        Err(EvalError::TypeMismatch(MismatchSite::Binary(BinaryOperator::Add)))
    );
}

#[test]
fn first_error_wins() {
    assert_eq!(eval_text("+(!1, /(1, 0))"), Err(EvalError::TypeMismatch(MismatchSite::Unary(UnaryOperator::Not))));
    assert_eq!(eval_text("apply(1, /(1, 0))"), Err(EvalError::DivisionByZero));
}

#[test]
fn render_negative_and_extreme_integers() {
    assert_eq!(integer(-5).render(), "-5");
    assert_eq!(integer(0).render(), "0");
    assert_eq!(integer(i64::MIN).render(), "-9223372036854775808");
    assert_eq!(integer(i64::MAX).render(), "9223372036854775807");
    assert_eq!(binary(BinaryOperator::Equals, integer(10), integer(-20)).render(), "10 = -20");
}

#[test]
fn substitute_reaches_operators_only() {
    let x = Expression::Variable("x".to_string());
    let body = binary(BinaryOperator::Add, x.clone(), integer(1));
    assert_eq!(
        substitute(&body, &"x".to_string(), &integer(2)),
        binary(BinaryOperator::Add, integer(2), integer(1))
    );
    let cond = Expression::If {
        condition: Box::new(Expression::Boolean(true)),
        then_expr: Box::new(x.clone()),
        else_expr: Box::new(integer(0)),
    };
    assert_eq!(substitute(&cond, &"x".to_string(), &integer(2)), cond);
    assert_eq!(substitute(&x, &"y".to_string(), &integer(2)), x);
}

#[test]
fn run_messages() {
    assert_eq!(run("*(6, 7)"), "42");
    assert_eq!(run("func x => x"), "func x => x");
    assert_eq!(run("A"), "Error parsing expression: unexpected character A");
    assert_eq!(
        run("99999999999999999999"),
        "Error parsing expression: integer literal does not fit in 64 bits"
    );
    assert_eq!(
        run("!1"),
        "Error evaluating expression: Invalid operand for 'Not' operator"
    );
    assert_eq!(
        run("<(T, 1)"),
        "Error evaluating expression: Invalid operands for 'LessThan' operator"
    );
    assert_eq!(run("/(1, 0)"), "Error evaluating expression: Division by zero");
    assert_eq!(
        run("if 1 then 2 else 3"),
        "Error evaluating expression: Invalid condition for 'If' expression"
    );
    assert_eq!(
        run("apply(2, 3)"),
        "Error evaluating expression: Invalid function expression in apply"
    );
    assert_eq!(
        run("*(9223372036854775807, 2)"),
        "Error evaluating expression: Integer overflow in 'Multiply' operation"
    );
    assert_eq!(run("if T 1"), "Error parsing expression: Expected 'then' keyword");
}

#[test]
fn run_tokens_on_given_tokens() {
    let tokens = vec![
        LexItem::BinaryOp(BinaryOperator::Subtract),
        LexItem::OpenParen,
        LexItem::Integer(1),
        LexItem::Comma,
        LexItem::Integer(4),
        LexItem::CloseParen,
    ];
    assert_eq!(run_tokens(tokens), "-3");
    assert_eq!(run_tokens(vec![]), "Error parsing expression: Unexpected end of input");
}

#[test]
fn clone_is_deep_and_equal() {
    let e = parse_text("apply(func x => if <(x, 10) then -(10, x) else +(x, 10), 5)").unwrap();
    assert_eq!(e.clone(), e);
    assert_eq!(e.duplicate(), e);
}
