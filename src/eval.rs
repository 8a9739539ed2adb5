use vstd::prelude::*;

use crate::expression::{
    binary_name, is_normal_form, size, unary_name, BinaryOperator, Expression, UnaryOperator,
};

verus! {

/// The construct whose operands had the wrong type.
#[derive(Debug, Clone, Copy, PartialEq, Eq, Structural)]
pub enum MismatchSite {
    Unary(UnaryOperator),
    Binary(BinaryOperator),
    If,
}

/// Why evaluation failed.
#[derive(Debug, Clone, Copy, PartialEq, Eq, Structural)]
pub enum EvalError {
    TypeMismatch(MismatchSite),
    NotAFunction,
    DivisionByZero,
    IntegerOverflow(BinaryOperator),
}

/// The human-readable message of an evaluation error.
pub open spec fn eval_error_text(e: EvalError) -> Seq<char> {
    match e {
        EvalError::TypeMismatch(MismatchSite::Unary(op)) => "Invalid operand for '"@ + unary_name(op)
            + "' operator"@,
        EvalError::TypeMismatch(MismatchSite::Binary(op)) => "Invalid operands for '"@
            + binary_name(op) + "' operator"@,
        EvalError::TypeMismatch(MismatchSite::If) => "Invalid condition for 'If' expression"@,
        EvalError::NotAFunction => "Invalid function expression in apply"@,
        EvalError::DivisionByZero => "Division by zero"@,
        EvalError::IntegerOverflow(op) => "Integer overflow in '"@ + binary_name(op)
            + "' operation"@,
    }
}

impl EvalError {
    /// The human-readable message of the error.
    pub fn message(&self) -> (r: String)
        ensures
            r@ == eval_error_text(*self),
    {
        match self {
            EvalError::TypeMismatch(MismatchSite::Unary(op)) => {
                let mut s = <String as StringExecFns>::from_str("Invalid operand for '");
                s.append(op.name());
                s.append("' operator");
                s
            },
            EvalError::TypeMismatch(MismatchSite::Binary(op)) => {
                let mut s = <String as StringExecFns>::from_str("Invalid operands for '");
                s.append(op.name());
                s.append("' operator");
                s
            },
            EvalError::TypeMismatch(MismatchSite::If) => <String as StringExecFns>::from_str(
                "Invalid condition for 'If' expression",
            ),
            EvalError::NotAFunction => <String as StringExecFns>::from_str(
                "Invalid function expression in apply",
            ),
            EvalError::DivisionByZero => <String as StringExecFns>::from_str("Division by zero"),
            EvalError::IntegerOverflow(op) => {
                let mut s = <String as StringExecFns>::from_str("Integer overflow in '");
                s.append(op.name());
                s.append("' operation");
                s
            },
        }
    }
}

/// Integer division rounding toward zero, as machine division does.
pub open spec fn trunc_div(x: int, d: int) -> int {
    if x >= 0 && d > 0 {
        x / d
    } else if x < 0 && d < 0 {
        (-x) / (-d)
    } else if x < 0 {
        -((-x) / d)
    } else {
        -(x / (-d))
    }
}

/// An integer result of `op`, or an overflow error where it does not fit in 64 bits.
pub open spec fn integer_result(op: BinaryOperator, v: int) -> Result<Expression, EvalError> {
    if i64::MIN <= v <= i64::MAX {
        Ok(Expression::Integer(v as i64))
    } else {
        Err(EvalError::IntegerOverflow(op))
    }
}

/// What `op` gives on two evaluated operands.
pub open spec fn apply_binary(op: BinaryOperator, l: Expression, r: Expression) -> Result<
    Expression,
    EvalError,
> {
    let mismatch = Err(EvalError::TypeMismatch(MismatchSite::Binary(op)));
    match (l, r) {
        (Expression::Integer(a), Expression::Integer(b)) => match op {
            BinaryOperator::Add => integer_result(op, a + b),
            BinaryOperator::Subtract => integer_result(op, a - b),
            BinaryOperator::Multiply => integer_result(op, a * b),
            BinaryOperator::Divide => if b == 0 {
                Err(EvalError::DivisionByZero)
            } else {
                integer_result(op, trunc_div(a as int, b as int))
            },
            BinaryOperator::LessThan => Ok(Expression::Boolean(a < b)),
            BinaryOperator::Equals => Ok(Expression::Boolean(a == b)),
            _ => mismatch,
        },
        (Expression::Boolean(a), Expression::Boolean(b)) => match op {
            BinaryOperator::And => Ok(Expression::Boolean(a && b)),
            BinaryOperator::Or => Ok(Expression::Boolean(a || b)),
            _ => mismatch,
        },
        _ => mismatch,
    }
}

/// What `op` gives on an evaluated operand.
pub open spec fn apply_unary(op: UnaryOperator, c: Expression) -> Result<Expression, EvalError> {
    match c {
        Expression::Boolean(b) => Ok(Expression::Boolean(!b)),
        _ => Err(EvalError::TypeMismatch(MismatchSite::Unary(op))),
    }
}

/// `e` with every variable named `param` replaced by `arg`, looking only through
/// unary and binary operators: `if`, `apply` and `func` nodes are left as they are.
pub open spec fn substitute_spec(e: Expression, param: Seq<char>, arg: Expression) -> Expression
    decreases e,
{
    match e {
        Expression::Variable(x) => if x@ == param {
            arg
        } else {
            e
        },
        Expression::UnaryOp { op, child } => Expression::UnaryOp {
            op,
            child: Box::new(substitute_spec(*child, param, arg)),
        },
        Expression::BinaryOp { op, lhs, rhs } => Expression::BinaryOp {
            op,
            lhs: Box::new(substitute_spec(*lhs, param, arg)),
            rhs: Box::new(substitute_spec(*rhs, param, arg)),
        },
        _ => e,
    }
}

/// The value of an expression, or the first error met, operands left to right.
///
/// An application evaluates the function's body with the argument in place of
/// the parameter (see `eval_substituted`, which equals evaluating
/// `substitute_spec(body, param, arg)` by `lemma_substituted_is_substitution`).
/// The size test on the body always holds (`lemma_eval_shrinks`); it is there so
/// that the definition is seen to terminate.
pub open spec fn eval_spec(e: Expression) -> Result<Expression, EvalError>
    decreases size(e), 0nat,
{
    match e {
        Expression::UnaryOp { op, child } => match eval_spec(*child) {
            Ok(c) => apply_unary(op, c),
            Err(err) => Err(err),
        },
        Expression::BinaryOp { op, lhs, rhs } => match eval_spec(*lhs) {
            Ok(l) => match eval_spec(*rhs) {
                Ok(r) => apply_binary(op, l, r),
                Err(err) => Err(err),
            },
            Err(err) => Err(err),
        },
        Expression::If { condition, then_expr, else_expr } => match eval_spec(*condition) {
            Ok(Expression::Boolean(b)) => if b {
                eval_spec(*then_expr)
            } else {
                eval_spec(*else_expr)
            },
            Ok(_) => Err(EvalError::TypeMismatch(MismatchSite::If)),
            Err(err) => Err(err),
        },
        Expression::Apply { func_expr, arg_expr } => match eval_spec(*func_expr) {
            Ok(f) => match eval_spec(*arg_expr) {
                Ok(v) => match f {
                    Expression::Func { param, body } => if size(*body) < size(e) {
                        eval_substituted(*body, param@, v)
                    } else {
                        Err(EvalError::NotAFunction)
                    },
                    _ => Err(EvalError::NotAFunction),
                },
                Err(err) => Err(err),
            },
            Err(err) => Err(err),
        },
        _ => Ok(e),
    }
}

/// The value of `substitute_spec(body, param, arg)`, for an `arg` in normal form,
/// computed without building the substituted tree.
pub open spec fn eval_substituted(body: Expression, param: Seq<char>, arg: Expression) -> Result<
    Expression,
    EvalError,
>
    decreases size(body), 1nat,
{
    match body {
        Expression::Variable(x) => if x@ == param {
            Ok(arg)
        } else {
            Ok(body)
        },
        Expression::UnaryOp { op, child } => match eval_substituted(*child, param, arg) {
            Ok(c) => apply_unary(op, c),
            Err(err) => Err(err),
        },
        Expression::BinaryOp { op, lhs, rhs } => match eval_substituted(*lhs, param, arg) {
            Ok(l) => match eval_substituted(*rhs, param, arg) {
                Ok(r) => apply_binary(op, l, r),
                Err(err) => Err(err),
            },
            Err(err) => Err(err),
        },
        _ => eval_spec(body),
    }
}

/// Evaluation yields a normal form no larger than the expression.
pub proof fn lemma_eval_shrinks(e: Expression)
    ensures
        eval_spec(e) is Ok ==> is_normal_form(eval_spec(e)->Ok_0) && size(eval_spec(e)->Ok_0)
            <= size(e),
    decreases size(e), 0nat,
{
    match e {
        Expression::UnaryOp { child, .. } => lemma_eval_shrinks(*child),
        Expression::BinaryOp { lhs, rhs, .. } => {
            lemma_eval_shrinks(*lhs);
            lemma_eval_shrinks(*rhs);
        },
        Expression::If { condition, then_expr, else_expr } => {
            lemma_eval_shrinks(*condition);
            lemma_eval_shrinks(*then_expr);
            lemma_eval_shrinks(*else_expr);
        },
        Expression::Apply { func_expr, arg_expr } => {
            lemma_eval_shrinks(*func_expr);
            lemma_eval_shrinks(*arg_expr);
            if eval_spec(*func_expr) is Ok && eval_spec(*arg_expr) is Ok {
                let v = eval_spec(*arg_expr)->Ok_0;
                match eval_spec(*func_expr)->Ok_0 {
                    Expression::Func { param, body } => {
                        lemma_eval_substituted_shrinks(*body, param@, v);
                    },
                    _ => {},
                }
            }
        },
        _ => {},
    }
}

/// Evaluation under a substitution yields a normal form no larger than the body
/// or the argument.
pub proof fn lemma_eval_substituted_shrinks(body: Expression, param: Seq<char>, arg: Expression)
    requires
        is_normal_form(arg),
    ensures
        eval_substituted(body, param, arg) is Ok ==> is_normal_form(
            eval_substituted(body, param, arg)->Ok_0,
        ) && (size(eval_substituted(body, param, arg)->Ok_0) <= size(body) || size(
            eval_substituted(body, param, arg)->Ok_0,
        ) <= size(arg)),
    decreases size(body), 1nat,
{
    match body {
        Expression::UnaryOp { child, .. } => lemma_eval_substituted_shrinks(*child, param, arg),
        Expression::BinaryOp { lhs, rhs, .. } => {
            lemma_eval_substituted_shrinks(*lhs, param, arg);
            lemma_eval_substituted_shrinks(*rhs, param, arg);
        },
        Expression::Variable(_) => {},
        _ => lemma_eval_shrinks(body),
    }
}

/// Evaluating a normal form gives it back.
pub proof fn lemma_normal_form_evaluates_to_itself(e: Expression)
    requires
        is_normal_form(e),
    ensures
        eval_spec(e) == Ok::<Expression, EvalError>(e),
{
}

/// Evaluating the body with the argument in place is evaluating the substituted body.
pub proof fn lemma_substituted_is_substitution(body: Expression, param: Seq<char>, arg: Expression)
    requires
        is_normal_form(arg),
    ensures
        eval_substituted(body, param, arg) == eval_spec(substitute_spec(body, param, arg)),
    decreases body,
{
    match body {
        Expression::Variable(x) => {
            if x@ == param {
                lemma_normal_form_evaluates_to_itself(arg);
            }
        },
        Expression::UnaryOp { child, .. } => lemma_substituted_is_substitution(*child, param, arg),
        Expression::BinaryOp { lhs, rhs, .. } => {
            lemma_substituted_is_substitution(*lhs, param, arg);
            lemma_substituted_is_substitution(*rhs, param, arg);
        },
        _ => {},
    }
}

/// Literals evaluate to themselves.
pub proof fn law_literals_evaluate_to_themselves(n: i64, b: bool)
    ensures
        eval_spec(Expression::Integer(n)) == Ok::<Expression, EvalError>(Expression::Integer(n)),
        eval_spec(Expression::Boolean(b)) == Ok::<Expression, EvalError>(Expression::Boolean(b)),
{
}

/// The node `op(l, r)`.
pub open spec fn binary_node(op: BinaryOperator, l: Expression, r: Expression) -> Expression {
    Expression::BinaryOp { op, lhs: Box::new(l), rhs: Box::new(r) }
}

/// On literal operands each binary operator computes its arithmetic, comparison or
/// logical meaning: sums, differences, products and quotients wherever they fit in
/// 64 bits (quotients by a non-zero divisor, rounded toward zero), comparisons
/// always, `&` and `|` on booleans.
pub proof fn law_binary_operators_on_literals(a: i64, b: i64, p: bool, q: bool)
    ensures
        i64::MIN <= a + b <= i64::MAX ==> eval_spec(
            binary_node(BinaryOperator::Add, Expression::Integer(a), Expression::Integer(b)),
        ) == Ok::<Expression, EvalError>(Expression::Integer((a + b) as i64)),
        i64::MIN <= a - b <= i64::MAX ==> eval_spec(
            binary_node(BinaryOperator::Subtract, Expression::Integer(a), Expression::Integer(b)),
        ) == Ok::<Expression, EvalError>(Expression::Integer((a - b) as i64)),
        i64::MIN <= a * b <= i64::MAX ==> eval_spec(
            binary_node(BinaryOperator::Multiply, Expression::Integer(a), Expression::Integer(b)),
        ) == Ok::<Expression, EvalError>(Expression::Integer((a * b) as i64)),
        b != 0 && i64::MIN <= trunc_div(a as int, b as int) <= i64::MAX ==> eval_spec(
            binary_node(BinaryOperator::Divide, Expression::Integer(a), Expression::Integer(b)),
        ) == Ok::<Expression, EvalError>(Expression::Integer(trunc_div(a as int, b as int) as i64)),
        eval_spec(
            binary_node(BinaryOperator::LessThan, Expression::Integer(a), Expression::Integer(b)),
        ) == Ok::<Expression, EvalError>(Expression::Boolean(a < b)),
        eval_spec(
            binary_node(BinaryOperator::Equals, Expression::Integer(a), Expression::Integer(b)),
        ) == Ok::<Expression, EvalError>(Expression::Boolean(a == b)),
        eval_spec(binary_node(BinaryOperator::And, Expression::Boolean(p), Expression::Boolean(q)))
            == Ok::<Expression, EvalError>(Expression::Boolean(p && q)),
        eval_spec(binary_node(BinaryOperator::Or, Expression::Boolean(p), Expression::Boolean(q)))
            == Ok::<Expression, EvalError>(Expression::Boolean(p || q)),
{
    reveal_with_fuel(eval_spec, 2);
}

/// A conditional whose condition is a literal evaluates exactly the branch it
/// selects: the value does not depend on the other branch at all.
pub proof fn law_if_evaluates_one_branch(t: Expression, e: Expression)
    ensures
        eval_spec(
            Expression::If {
                condition: Box::new(Expression::Boolean(true)),
                then_expr: Box::new(t),
                else_expr: Box::new(e),
            },
        ) == eval_spec(t),
        eval_spec(
            Expression::If {
                condition: Box::new(Expression::Boolean(false)),
                then_expr: Box::new(t),
                else_expr: Box::new(e),
            },
        ) == eval_spec(e),
{
    reveal_with_fuel(eval_spec, 2);
}

fn unary_result(op: UnaryOperator, c: Expression) -> (r: Result<Expression, EvalError>)
    ensures
        r == apply_unary(op, c),
{
    match c {
        Expression::Boolean(b) => Ok(Expression::Boolean(!b)),
        _ => Err(EvalError::TypeMismatch(MismatchSite::Unary(op))),
    }
}

fn integer_pair_result(op: BinaryOperator, a: i64, b: i64) -> (r: Result<Expression, EvalError>)
    ensures
        r == apply_binary(op, Expression::Integer(a), Expression::Integer(b)),
{
    let overflow = Err(EvalError::IntegerOverflow(op));
    match op {
        BinaryOperator::Add => match a.checked_add(b) {
            Some(v) => Ok(Expression::Integer(v)),
            None => overflow,
        },
        BinaryOperator::Subtract => match a.checked_sub(b) {
            Some(v) => Ok(Expression::Integer(v)),
            None => overflow,
        },
        BinaryOperator::Multiply => match a.checked_mul(b) {
            Some(v) => Ok(Expression::Integer(v)),
            None => overflow,
        },
        BinaryOperator::Divide => if b == 0 {
            Err(EvalError::DivisionByZero)
        } else {
            match a.checked_div(b) {
                Some(v) => Ok(Expression::Integer(v)),
                None => overflow,
            }
        },
        BinaryOperator::LessThan => Ok(Expression::Boolean(a < b)),
        BinaryOperator::Equals => Ok(Expression::Boolean(a == b)),
        _ => Err(EvalError::TypeMismatch(MismatchSite::Binary(op))),
    }
}

fn binary_result(op: BinaryOperator, l: Expression, r: Expression) -> (res: Result<
    Expression,
    EvalError,
>)
    ensures
        res == apply_binary(op, l, r),
{
    let mismatch = Err(EvalError::TypeMismatch(MismatchSite::Binary(op)));
    match l {
        Expression::Integer(a) => match r {
            Expression::Integer(b) => integer_pair_result(op, a, b),
            _ => mismatch,
        },
        Expression::Boolean(a) => match r {
            Expression::Boolean(b) => match op {
                BinaryOperator::And => Ok(Expression::Boolean(a && b)),
                BinaryOperator::Or => Ok(Expression::Boolean(a || b)),
                _ => mismatch,
            },
            _ => mismatch,
        },
        _ => mismatch,
    }
}

impl Expression {
    /// Reduces the expression to a normal form, or fails with the first error met.
    pub fn eval(&self) -> (r: Result<Expression, EvalError>)
        ensures
            r == eval_spec(*self),
            r is Ok ==> is_normal_form(r->Ok_0),
        decreases size(*self), 0nat,
    {
        proof {
            lemma_eval_shrinks(*self);
        }
        match self {
            Expression::UnaryOp { op, child } => match child.eval() {
                Ok(c) => unary_result(*op, c),
                Err(err) => Err(err),
            },
            Expression::BinaryOp { op, lhs, rhs } => match lhs.eval() {
                Ok(l) => match rhs.eval() {
                    Ok(r) => binary_result(*op, l, r),
                    Err(err) => Err(err),
                },
                Err(err) => Err(err),
            },
            Expression::If { condition, then_expr, else_expr } => match condition.eval() {
                Ok(Expression::Boolean(b)) => if b {
                    then_expr.eval()
                } else {
                    else_expr.eval()
                },
                Ok(_) => Err(EvalError::TypeMismatch(MismatchSite::If)),
                Err(err) => Err(err),
            },
            Expression::Apply { func_expr, arg_expr } => match func_expr.eval() {
                Ok(f) => match arg_expr.eval() {
                    Ok(v) => match f {
                        Expression::Func { param, body } => {
                            proof {
                                lemma_eval_shrinks(**func_expr);
                            }
                            eval_substituted_exec(&body, &param, &v)
                        },
                        _ => Err(EvalError::NotAFunction),
                    },
                    Err(err) => Err(err),
                },
                Err(err) => Err(err),
            },
            _ => Ok(self.duplicate()),
        }
    }
}

/// Evaluates `body` with `arg` in place of the variable `param`, as `substitute`
/// followed by `eval` would.
fn eval_substituted_exec(body: &Expression, param: &String, arg: &Expression) -> (r: Result<
    Expression,
    EvalError,
>)
    requires
        is_normal_form(*arg),
    ensures
        r == eval_substituted(*body, param@, *arg),
        r is Ok ==> is_normal_form(r->Ok_0),
    decreases size(*body), 1nat,
{
    proof {
        lemma_eval_substituted_shrinks(*body, param@, *arg);
    }
    match body {
        Expression::Variable(x) => if *x == *param {
            Ok(arg.duplicate())
        } else {
            Ok(body.duplicate())
        },
        Expression::UnaryOp { op, child } => match eval_substituted_exec(child, param, arg) {
            Ok(c) => unary_result(*op, c),
            Err(err) => Err(err),
        },
        Expression::BinaryOp { op, lhs, rhs } => match eval_substituted_exec(lhs, param, arg) {
            Ok(l) => match eval_substituted_exec(rhs, param, arg) {
                Ok(r) => binary_result(*op, l, r),
                Err(err) => Err(err),
            },
            Err(err) => Err(err),
        },
        _ => body.eval(),
    }
}

/// Replaces each variable named `param` by `arg`, looking only through unary and
/// binary operators.
pub fn substitute(expr: &Expression, param: &String, arg: &Expression) -> (r: Expression)
    ensures
        r == substitute_spec(*expr, param@, *arg),
    decreases expr,
{
    match expr {
        Expression::Variable(x) => if *x == *param {
            arg.duplicate()
        } else {
            expr.duplicate()
        },
        Expression::UnaryOp { op, child } => Expression::UnaryOp {
            op: *op,
            child: Box::new(substitute(child, param, arg)),
        },
        Expression::BinaryOp { op, lhs, rhs } => Expression::BinaryOp {
            op: *op,
            lhs: Box::new(substitute(lhs, param, arg)),
            rhs: Box::new(substitute(rhs, param, arg)),
        },
        _ => expr.duplicate(),
    }
}

} // verus!
