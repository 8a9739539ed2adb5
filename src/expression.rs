use vstd::prelude::*;

verus! {

/// Binary operators of the language, written in prefix form `op(lhs, rhs)`.
#[derive(Debug, Clone, Copy, PartialEq, Eq, Structural)]
pub enum BinaryOperator {
    Add,
    Subtract,
    Multiply,
    Divide,
    LessThan,
    Equals,
    And,
    Or,
}

/// Unary operators of the language, written in prefix form `op expr`.
#[derive(Debug, Clone, Copy, PartialEq, Eq, Structural)]
pub enum UnaryOperator {
    Not,
}

/// The expression tree; every subtree is owned by its parent.
#[derive(Debug, PartialEq)]
pub enum Expression {
    Integer(i64),
    Variable(String),
    Boolean(bool),
    BinaryOp { op: BinaryOperator, lhs: Box<Expression>, rhs: Box<Expression> },
    UnaryOp { op: UnaryOperator, child: Box<Expression> },
    Func { param: String, body: Box<Expression> },
    If { condition: Box<Expression>, then_expr: Box<Expression>, else_expr: Box<Expression> },
    Apply { func_expr: Box<Expression>, arg_expr: Box<Expression> },
}

/// Number of nodes of a tree.
pub open spec fn size(e: Expression) -> nat
    decreases e,
{
    match e {
        Expression::BinaryOp { lhs, rhs, .. } => 1 + size(*lhs) + size(*rhs),
        Expression::UnaryOp { child, .. } => 1 + size(*child),
        Expression::Func { body, .. } => 1 + size(*body),
        Expression::If { condition, then_expr, else_expr } => 1 + size(*condition) + size(
            *then_expr,
        ) + size(*else_expr),
        Expression::Apply { func_expr, arg_expr } => 1 + size(*func_expr) + size(*arg_expr),
        _ => 1,
    }
}

/// A fully reduced expression: what evaluation hands back.
pub open spec fn is_normal_form(e: Expression) -> bool {
    match e {
        Expression::Integer(_) | Expression::Boolean(_) | Expression::Variable(_)
        | Expression::Func { .. } => true,
        _ => false,
    }
}

impl Expression {
    /// A deep copy of the tree.
    pub fn duplicate(&self) -> (r: Expression)
        ensures
            r == *self,
        decreases self,
    {
        match self {
            Expression::Integer(n) => Expression::Integer(*n),
            Expression::Variable(x) => Expression::Variable(x.clone()),
            Expression::Boolean(b) => Expression::Boolean(*b),
            Expression::BinaryOp { op, lhs, rhs } => Expression::BinaryOp {
                op: *op,
                lhs: Box::new(lhs.duplicate()),
                rhs: Box::new(rhs.duplicate()),
            },
            Expression::UnaryOp { op, child } => Expression::UnaryOp {
                op: *op,
                child: Box::new(child.duplicate()),
            },
            Expression::Func { param, body } => Expression::Func {
                param: param.clone(),
                body: Box::new(body.duplicate()),
            },
            Expression::If { condition, then_expr, else_expr } => Expression::If {
                condition: Box::new(condition.duplicate()),
                then_expr: Box::new(then_expr.duplicate()),
                else_expr: Box::new(else_expr.duplicate()),
            },
            Expression::Apply { func_expr, arg_expr } => Expression::Apply {
                func_expr: Box::new(func_expr.duplicate()),
                arg_expr: Box::new(arg_expr.duplicate()),
            },
        }
    }
}

/// The character of a decimal digit.
pub open spec fn digit_char(d: nat) -> char {
    if d == 0 {
        '0'
    } else if d == 1 {
        '1'
    } else if d == 2 {
        '2'
    } else if d == 3 {
        '3'
    } else if d == 4 {
        '4'
    } else if d == 5 {
        '5'
    } else if d == 6 {
        '6'
    } else if d == 7 {
        '7'
    } else if d == 8 {
        '8'
    } else {
        '9'
    }
}

/// The text of a decimal digit.
pub open spec fn digit_text(d: nat) -> Seq<char> {
    seq![digit_char(d)]
}

/// The decimal text of a natural number, without leading zeros.
pub open spec fn decimal(v: nat) -> Seq<char>
    decreases v,
{
    if v < 10 {
        digit_text(v)
    } else {
        decimal(v / 10) + digit_text(v % 10)
    }
}

/// The decimal text of an integer, with a leading `-` when it is negative.
pub open spec fn integer_text(n: int) -> Seq<char> {
    if n < 0 {
        "-"@ + decimal((-n) as nat)
    } else {
        decimal(n as nat)
    }
}

pub open spec fn binary_symbol(op: BinaryOperator) -> Seq<char> {
    match op {
        BinaryOperator::Add => "+"@,
        BinaryOperator::Subtract => "-"@,
        BinaryOperator::Multiply => "*"@,
        BinaryOperator::Divide => "/"@,
        BinaryOperator::LessThan => "<"@,
        BinaryOperator::Equals => "="@,
        BinaryOperator::And => "&"@,
        BinaryOperator::Or => "|"@,
    }
}

pub open spec fn unary_symbol(op: UnaryOperator) -> Seq<char> {
    match op {
        UnaryOperator::Not => "!"@,
    }
}

/// The canonical text of a tree: binary operators infix, without parentheses.
pub open spec fn render_spec(e: Expression) -> Seq<char>
    decreases e,
{
    match e {
        Expression::Integer(n) => integer_text(n as int),
        Expression::Variable(x) => x@,
        Expression::Boolean(b) => if b {
            "T"@
        } else {
            "F"@
        },
        Expression::BinaryOp { op, lhs, rhs } => render_spec(*lhs) + " "@ + binary_symbol(op) + " "@
            + render_spec(*rhs),
        Expression::UnaryOp { op, child } => unary_symbol(op) + render_spec(*child),
        Expression::Func { param, body } => "func "@ + param@ + " => "@ + render_spec(*body),
        Expression::If { condition, then_expr, else_expr } => "if "@ + render_spec(*condition)
            + " then "@ + render_spec(*then_expr) + " else "@ + render_spec(*else_expr),
        Expression::Apply { func_expr, arg_expr } => render_spec(*func_expr) + " ("@ + render_spec(
            *arg_expr,
        ) + ")"@,
    }
}

fn digit_str(d: u64) -> (s: &'static str)
    requires
        d < 10,
    ensures
        s@ == digit_text(d as nat),
{
    let s = if d == 0 {
        "0"
    } else if d == 1 {
        "1"
    } else if d == 2 {
        "2"
    } else if d == 3 {
        "3"
    } else if d == 4 {
        "4"
    } else if d == 5 {
        "5"
    } else if d == 6 {
        "6"
    } else if d == 7 {
        "7"
    } else if d == 8 {
        "8"
    } else {
        "9"
    };
    proof {
        reveal_strlit("0");
        reveal_strlit("1");
        reveal_strlit("2");
        reveal_strlit("3");
        reveal_strlit("4");
        reveal_strlit("5");
        reveal_strlit("6");
        reveal_strlit("7");
        reveal_strlit("8");
        reveal_strlit("9");
        assert(s@ =~= digit_text(d as nat));
    }
    s
}

fn append_decimal(out: &mut String, v: u64)
    ensures
        final(out)@ == old(out)@ + decimal(v as nat),
    decreases v,
{
    if v >= 10 {
        append_decimal(out, v / 10);
        out.append(digit_str(v % 10));
        assert(out@ =~= old(out)@ + (decimal((v / 10) as nat) + digit_text((v % 10) as nat)));
    } else {
        out.append(digit_str(v));
    }
}

/// The operator's name, as error messages give it.
pub open spec fn binary_name(op: BinaryOperator) -> Seq<char> {
    match op {
        BinaryOperator::Add => "Add"@,
        BinaryOperator::Subtract => "Subtract"@,
        BinaryOperator::Multiply => "Multiply"@,
        BinaryOperator::Divide => "Divide"@,
        BinaryOperator::LessThan => "LessThan"@,
        BinaryOperator::Equals => "Equals"@,
        BinaryOperator::And => "And"@,
        BinaryOperator::Or => "Or"@,
    }
}

/// The operator's name, as error messages give it.
pub open spec fn unary_name(op: UnaryOperator) -> Seq<char> {
    match op {
        UnaryOperator::Not => "Not"@,
    }
}

impl BinaryOperator {
    /// The operator's name.
    pub fn name(&self) -> (s: &'static str)
        ensures
            s@ == binary_name(*self),
    {
        match self {
            BinaryOperator::Add => "Add",
            BinaryOperator::Subtract => "Subtract",
            BinaryOperator::Multiply => "Multiply",
            BinaryOperator::Divide => "Divide",
            BinaryOperator::LessThan => "LessThan",
            BinaryOperator::Equals => "Equals",
            BinaryOperator::And => "And",
            BinaryOperator::Or => "Or",
        }
    }

    /// The operator's symbol.
    pub fn symbol(&self) -> (s: &'static str)
        ensures
            s@ == binary_symbol(*self),
    {
        match self {
            BinaryOperator::Add => "+",
            BinaryOperator::Subtract => "-",
            BinaryOperator::Multiply => "*",
            BinaryOperator::Divide => "/",
            BinaryOperator::LessThan => "<",
            BinaryOperator::Equals => "=",
            BinaryOperator::And => "&",
            BinaryOperator::Or => "|",
        }
    }
}

impl UnaryOperator {
    /// The operator's name.
    pub fn name(&self) -> (s: &'static str)
        ensures
            s@ == unary_name(*self),
    {
        match self {
            UnaryOperator::Not => "Not",
        }
    }

    /// The operator's symbol.
    pub fn symbol(&self) -> (s: &'static str)
        ensures
            s@ == unary_symbol(*self),
    {
        match self {
            UnaryOperator::Not => "!",
        }
    }
}

impl Expression {
    /// The canonical text of the tree.
    pub fn render(&self) -> (r: String)
        ensures
            r@ == render_spec(*self),
    {
        let mut out = String::new();
        self.render_into(&mut out);
        assert(out@ =~= render_spec(*self));
        out
    }

    /// Appends the canonical text of the tree to `out`.
    pub fn render_into(&self, out: &mut String)
        ensures
            final(out)@ == old(out)@ + render_spec(*self),
        decreases self,
    {
        let ghost start = out@;
        match self {
            Expression::Integer(n) => {
                if *n < 0 {
                    out.append("-");
                    append_decimal(out, ((-(*n + 1)) as u64) + 1);
                } else {
                    append_decimal(out, *n as u64);
                }
            },
            Expression::Variable(x) => out.append(x.as_str()),
            Expression::Boolean(b) => out.append(
                if *b {
                    "T"
                } else {
                    "F"
                },
            ),
            Expression::BinaryOp { op, lhs, rhs } => {
                lhs.render_into(out);
                out.append(" ");
                out.append(op.symbol());
                out.append(" ");
                rhs.render_into(out);
            },
            Expression::UnaryOp { op, child } => {
                out.append(op.symbol());
                child.render_into(out);
            },
            Expression::Func { param, body } => {
                out.append("func ");
                out.append(param.as_str());
                out.append(" => ");
                body.render_into(out);
            },
            Expression::If { condition, then_expr, else_expr } => {
                out.append("if ");
                condition.render_into(out);
                out.append(" then ");
                then_expr.render_into(out);
                out.append(" else ");
                else_expr.render_into(out);
            },
            Expression::Apply { func_expr, arg_expr } => {
                func_expr.render_into(out);
                out.append(" (");
                arg_expr.render_into(out);
                out.append(")");
            },
        }
        assert(out@ =~= start + render_spec(*self));
    }
}

impl Clone for Expression {
    fn clone(&self) -> (r: Self)
        ensures
            r == *self,
    {
        self.duplicate()
    }
}

} // verus!
