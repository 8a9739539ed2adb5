use exprlang::{BinaryOperator, Expression, UnaryOperator};

#[test]
fn eval_integer() {
    let expr = Expression::Integer(42);
    let result = expr.eval();
    assert_eq!(result, Ok(Expression::Integer(42)));
}

#[test]
fn eval_variable() {
    let expr = Expression::Variable("x".to_string());
    let result = expr.eval();
    assert_eq!(result, Ok(Expression::Variable("x".to_string())));
}

#[test]
fn eval_boolean() {
    let expr = Expression::Boolean(true);
    let result = expr.eval();
    assert_eq!(result, Ok(Expression::Boolean(true)));
}

#[test]
fn eval_not_true() {
    let expr = Expression::UnaryOp {
        op: UnaryOperator::Not,
        child: Box::new(Expression::Boolean(true)),
    };
    let result = expr.eval();
    assert_eq!(result, Ok(Expression::Boolean(false)));
}

#[test]
fn eval_not_false() {
    let expr = Expression::UnaryOp {
        op: UnaryOperator::Not,
        child: Box::new(Expression::Boolean(false)),
    };
    let result = expr.eval();
    assert_eq!(result, Ok(Expression::Boolean(true)));
}

#[test]
fn eval_addition() {
    let expr = Expression::BinaryOp {
        op: BinaryOperator::Add,
        lhs: Box::new(Expression::Integer(2)),
        rhs: Box::new(Expression::Integer(3)),
    };
    let result = expr.eval();
    assert_eq!(result, Ok(Expression::Integer(5)));
}

#[test]
fn eval_subtraction() {
    let expr = Expression::BinaryOp {
        op: BinaryOperator::Subtract,
        lhs: Box::new(Expression::Integer(8)),
        rhs: Box::new(Expression::Integer(3)),
    };
    let result = expr.eval();
    assert_eq!(result, Ok(Expression::Integer(5)));
}

#[test]
fn eval_multiplication() {
    let expr = Expression::BinaryOp {
        op: BinaryOperator::Multiply,
        lhs: Box::new(Expression::Integer(2)),
        rhs: Box::new(Expression::Integer(3)),
    };
    let result = expr.eval();
    assert_eq!(result, Ok(Expression::Integer(6)));
}

#[test]
fn eval_division() {
    let expr = Expression::BinaryOp {
        op: BinaryOperator::Divide,
        lhs: Box::new(Expression::Integer(10)),
        rhs: Box::new(Expression::Integer(2)),
    };
    let result = expr.eval();
    assert_eq!(result, Ok(Expression::Integer(5)));
}

#[test]
fn eval_less_than_true() {
    let expr = Expression::BinaryOp {
        op: BinaryOperator::LessThan,
        lhs: Box::new(Expression::Integer(3)),
        rhs: Box::new(Expression::Integer(5)),
    };
    let result = expr.eval();
    assert_eq!(result, Ok(Expression::Boolean(true)));
}

#[test]
fn eval_less_than_false() {
    let expr = Expression::BinaryOp {
        op: BinaryOperator::LessThan,
        lhs: Box::new(Expression::Integer(8)),
        rhs: Box::new(Expression::Integer(5)),
    };
    let result = expr.eval();
    assert_eq!(result, Ok(Expression::Boolean(false)));
}

#[test]
fn eval_equals_true() {
    let expr = Expression::BinaryOp {
        op: BinaryOperator::Equals,
        lhs: Box::new(Expression::Integer(4)),
        rhs: Box::new(Expression::Integer(4)),
    };
    let result = expr.eval();
    assert_eq!(result, Ok(Expression::Boolean(true)));
}

#[test]
fn eval_equals_false() {
    let expr = Expression::BinaryOp {
        op: BinaryOperator::Equals,
        lhs: Box::new(Expression::Integer(2)),
        rhs: Box::new(Expression::Integer(5)),
    };
    let result = expr.eval();
    assert_eq!(result, Ok(Expression::Boolean(false)));
}
