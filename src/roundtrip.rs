use vstd::prelude::*;

use crate::expression::{
    binary_symbol, decimal, digit_char, render_spec, BinaryOperator, Expression,
};
use crate::lexer::{
    digit_run_end, digits_value, is_digit, is_lower, lex_from, lex_spec, lower_run_end, prepend,
    symbol_token, view_tokens, word_token, LexError, LexItem, Token,
};
use crate::parser::{has_token, parse_at, Expected};

verus! {

/// `w` stands in `s` from position `i` on.
pub open spec fn occurs_at<T>(s: Seq<T>, i: int, w: Seq<T>) -> bool {
    0 <= i && i + w.len() <= s.len() && s.subrange(i, i + w.len()) == w
}

pub proof fn lemma_occurs_split<T>(s: Seq<T>, i: int, a: Seq<T>, b: Seq<T>)
    requires
        occurs_at(s, i, a + b),
    ensures
        occurs_at(s, i, a),
        occurs_at(s, i + a.len(), b),
{
    assert(s.subrange(i, i + a.len()) =~= a) by {
        assert forall|k: int| 0 <= k < a.len() implies s.subrange(i, i + a.len())[k] == a[k] by {
            assert(s.subrange(i, i + (a + b).len())[k] == (a + b)[k]);
        }
    }
    assert(s.subrange(i + a.len(), i + a.len() + b.len()) =~= b) by {
        assert forall|k: int| 0 <= k < b.len() implies s.subrange(
            i + a.len(),
            i + a.len() + b.len(),
        )[k] == b[k] by {
            assert(s.subrange(i, i + (a + b).len())[a.len() + k] == (a + b)[a.len() + k]);
        }
    }
}

pub proof fn lemma_occurs_one<T>(s: Seq<T>, i: int, t: T)
    requires
        occurs_at(s, i, seq![t]),
    ensures
        0 <= i < s.len(),
        s[i] == t,
{
    assert(s.subrange(i, i + 1)[0] == s[i]);
}

/// The tokens that the rendered text of a tree lexes to.
pub open spec fn render_items(e: Expression) -> Seq<LexItem>
    decreases e,
{
    match e {
        Expression::Integer(n) => seq![LexItem::Integer(n)],
        Expression::Variable(x) => seq![LexItem::Variable(x)],
        Expression::Boolean(b) => seq![LexItem::Boolean(b)],
        Expression::BinaryOp { op, lhs, rhs } => render_items(*lhs) + seq![LexItem::BinaryOp(op)]
            + render_items(*rhs),
        Expression::UnaryOp { op, child } => seq![LexItem::UnaryOp(op)] + render_items(*child),
        Expression::Func { param, body } => seq![LexItem::Func, LexItem::Variable(param), LexItem::Arrow]
            + render_items(*body),
        Expression::If { condition, then_expr, else_expr } => seq![LexItem::If] + render_items(
            *condition,
        ) + seq![LexItem::Then] + render_items(*then_expr) + seq![LexItem::Else] + render_items(
            *else_expr,
        ),
        Expression::Apply { func_expr, arg_expr } => render_items(*func_expr) + seq![
            LexItem::OpenParen,
        ] + render_items(*arg_expr) + seq![LexItem::CloseParen],
    }
}

/// Parsing the rendered tokens of the tree reads them all: no binary operator or
/// application stands where rendering drops its parentheses.
pub open spec fn reparses_whole(e: Expression) -> bool
    decreases e,
{
    match e {
        Expression::BinaryOp { .. } | Expression::Apply { .. } => false,
        Expression::UnaryOp { child, .. } => reparses_whole(*child),
        Expression::Func { body, .. } => reparses_whole(*body),
        Expression::If { condition, then_expr, else_expr } => reparses_whole(*condition)
            && reparses_whole(*then_expr) && reparses_whole(*else_expr),
        _ => true,
    }
}

/// Parsing the rendered tokens of the tree succeeds: every condition and
/// then-branch of a conditional on the tree's leftmost path reparses whole.
pub open spec fn reparses(e: Expression) -> bool
    decreases e,
{
    match e {
        Expression::BinaryOp { lhs, .. } => reparses(*lhs),
        Expression::Apply { func_expr, .. } => reparses(*func_expr),
        Expression::UnaryOp { child, .. } => reparses(*child),
        Expression::Func { body, .. } => reparses(*body),
        Expression::If { condition, then_expr, else_expr } => reparses_whole(*condition)
            && reparses_whole(*then_expr) && reparses(*else_expr),
        _ => true,
    }
}

/// How the parser reads the rendered tokens of a tree wherever they stand: it
/// stops inside them only before a binary operator or an opening parenthesis.
pub proof fn lemma_parse_rendered_items(e: Expression, toks: Seq<LexItem>, pos: int)
    requires
        occurs_at(toks, pos, render_items(e)),
    ensures
        parse_at(toks, pos) is Ok ==> pos < parse_at(toks, pos)->Ok_0.1 <= pos + render_items(
            e,
        ).len() && (parse_at(toks, pos)->Ok_0.1 < pos + render_items(e).len() ==> (
        toks[parse_at(toks, pos)->Ok_0.1] is BinaryOp || toks[parse_at(toks, pos)->Ok_0.1] is OpenParen)),
        reparses_whole(e) ==> parse_at(toks, pos) is Ok && parse_at(toks, pos)->Ok_0.1 == pos
            + render_items(e).len(),
        reparses(e) ==> parse_at(toks, pos) is Ok,
        !reparses_whole(e) && parse_at(toks, pos) is Ok ==> parse_at(toks, pos)->Ok_0.1 < pos
            + render_items(e).len(),
        !reparses(e) ==> parse_at(toks, pos) is Err,
    decreases e,
{
    match e {
        Expression::Integer(n) => lemma_occurs_one(toks, pos, LexItem::Integer(n)),
        Expression::Variable(x) => lemma_occurs_one(toks, pos, LexItem::Variable(x)),
        Expression::Boolean(b) => lemma_occurs_one(toks, pos, LexItem::Boolean(b)),
        Expression::BinaryOp { op, lhs, rhs } => {
            let il = render_items(*lhs);
            lemma_occurs_split(toks, pos, il + seq![LexItem::BinaryOp(op)], render_items(*rhs));
            lemma_occurs_split(toks, pos, il, seq![LexItem::BinaryOp(op)]);
            lemma_occurs_one(toks, pos + il.len(), LexItem::BinaryOp(op));
            lemma_parse_rendered_items(*lhs, toks, pos);
        },
        Expression::Apply { func_expr, arg_expr } => {
            let i_f = render_items(*func_expr);
            let a = i_f + seq![LexItem::OpenParen] + render_items(*arg_expr);
            lemma_occurs_split(toks, pos, a, seq![LexItem::CloseParen]);
            lemma_occurs_split(toks, pos, i_f + seq![LexItem::OpenParen], render_items(*arg_expr));
            lemma_occurs_split(toks, pos, i_f, seq![LexItem::OpenParen]);
            lemma_occurs_one(toks, pos + i_f.len(), LexItem::OpenParen);
            lemma_parse_rendered_items(*func_expr, toks, pos);
        },
        Expression::UnaryOp { op, child } => {
            lemma_occurs_split(toks, pos, seq![LexItem::UnaryOp(op)], render_items(*child));
            lemma_occurs_one(toks, pos, LexItem::UnaryOp(op));
            lemma_parse_rendered_items(*child, toks, pos + 1);
        },
        Expression::Func { param, body } => {
            let head = seq![LexItem::Func, LexItem::Variable(param), LexItem::Arrow];
            lemma_occurs_split(toks, pos, head, render_items(*body));
            assert(head =~= seq![LexItem::Func] + seq![LexItem::Variable(param)] + seq![
                LexItem::Arrow,
            ]);
            lemma_occurs_split(toks, pos, seq![LexItem::Func] + seq![LexItem::Variable(param)], seq![LexItem::Arrow]);
            lemma_occurs_split(toks, pos, seq![LexItem::Func], seq![LexItem::Variable(param)]);
            lemma_occurs_one(toks, pos, LexItem::Func);
            lemma_occurs_one(toks, pos + 1, LexItem::Variable(param));
            lemma_occurs_one(toks, pos + 2, LexItem::Arrow);
            lemma_parse_rendered_items(*body, toks, pos + 3);
        },
        Expression::If { condition, then_expr, else_expr } => {
            let ic = render_items(*condition);
            let it = render_items(*then_expr);
            let ie = render_items(*else_expr);
            let a1 = seq![LexItem::If] + ic;
            let a2 = a1 + seq![LexItem::Then];
            let a3 = a2 + it;
            let a4 = a3 + seq![LexItem::Else];
            lemma_occurs_split(toks, pos, a4, ie);
            lemma_occurs_split(toks, pos, a3, seq![LexItem::Else]);
            lemma_occurs_split(toks, pos, a2, it);
            lemma_occurs_split(toks, pos, a1, seq![LexItem::Then]);
            lemma_occurs_split(toks, pos, seq![LexItem::If], ic);
            lemma_occurs_one(toks, pos, LexItem::If);
            lemma_occurs_one(toks, pos + a1.len(), LexItem::Then);
            lemma_occurs_one(toks, pos + a3.len(), LexItem::Else);
            lemma_parse_rendered_items(*condition, toks, pos + 1);
            lemma_parse_rendered_items(*then_expr, toks, pos + a2.len());
            lemma_parse_rendered_items(*else_expr, toks, pos + a4.len());
        },
    }
}

/// A variable name that the lexer reads back as that variable: lowercase letters,
/// at least one, and no keyword.
pub open spec fn is_name(x: Seq<char>) -> bool {
    x.len() > 0 && (forall|k: int| 0 <= k < x.len() ==> is_lower(#[trigger] x[k])) && word_token(x)
        == Token::Variable(x)
}

/// A token as the lexer can produce it.
pub open spec fn lexical_token(t: LexItem) -> bool {
    match t {
        LexItem::Integer(n) => n >= 0,
        LexItem::Variable(x) => is_name(x@),
        _ => true,
    }
}

/// A tree whose integers and names are all as the lexer can produce them.
pub open spec fn lexical_expr(e: Expression) -> bool
    decreases e,
{
    match e {
        Expression::Integer(n) => n >= 0,
        Expression::Variable(x) => is_name(x@),
        Expression::Boolean(_) => true,
        Expression::BinaryOp { lhs, rhs, .. } => lexical_expr(*lhs) && lexical_expr(*rhs),
        Expression::UnaryOp { child, .. } => lexical_expr(*child),
        Expression::Func { param, body } => is_name(param@) && lexical_expr(*body),
        Expression::If { condition, then_expr, else_expr } => lexical_expr(*condition)
            && lexical_expr(*then_expr) && lexical_expr(*else_expr),
        Expression::Apply { func_expr, arg_expr } => lexical_expr(*func_expr) && lexical_expr(
            *arg_expr,
        ),
    }
}

/// Position `j` of `s` ends a token that precedes it: the text ends there, or a
/// space or a closing parenthesis stands there.
pub open spec fn ends_token(s: Seq<char>, j: int) -> bool {
    j == s.len() || (0 <= j < s.len() && (s[j] == ' ' || s[j] == ')'))
}

pub proof fn lemma_occurs_chars<T>(s: Seq<T>, i: int, w: Seq<T>)
    requires
        occurs_at(s, i, w),
    ensures
        forall|k: int| 0 <= k < w.len() ==> s[i + k] == w[k],
{
    assert forall|k: int| 0 <= k < w.len() implies s[i + k] == w[k] by {
        assert(s.subrange(i, i + w.len())[k] == s[i + k]);
    }
}

proof fn lemma_prepend_prepend(a: Seq<Token>, b: Seq<Token>, x: Result<Seq<Token>, LexError>)
    ensures
        prepend(a, prepend(b, x)) == prepend(a + b, x),
{
    match x {
        Ok(ts) => assert(a + (b + ts) =~= (a + b) + ts),
        Err(_) => {},
    }
}

proof fn lemma_view_tokens_concat(a: Seq<LexItem>, b: Seq<LexItem>)
    ensures
        view_tokens(a + b) == view_tokens(a) + view_tokens(b),
{
    assert(view_tokens(a + b) =~= view_tokens(a) + view_tokens(b));
}

proof fn lemma_digit_run(s: Seq<char>, i: int, w: Seq<char>)
    requires
        occurs_at(s, i, w),
        forall|k: int| 0 <= k < w.len() ==> is_digit(#[trigger] w[k]),
        i + w.len() == s.len() || !is_digit(s[i + w.len()]),
    ensures
        digit_run_end(s, i) == i + w.len(),
    decreases w.len(),
{
    lemma_occurs_chars(s, i, w);
    if w.len() > 0 {
        let rest = w.subrange(1, w.len() as int);
        assert(is_digit(w[0]));
        assert(s[i] == w[0]);
        assert(s.subrange(i + 1, i + 1 + rest.len()) =~= rest);
        assert forall|k: int| 0 <= k < rest.len() implies is_digit(#[trigger] rest[k]) by {
            assert(rest[k] == w[k + 1]);
            assert(is_digit(w[k + 1]));
        }
        lemma_digit_run(s, i + 1, rest);
    }
}

proof fn lemma_lower_run(s: Seq<char>, i: int, w: Seq<char>)
    requires
        occurs_at(s, i, w),
        forall|k: int| 0 <= k < w.len() ==> is_lower(#[trigger] w[k]),
        i + w.len() == s.len() || !is_lower(s[i + w.len()]),
    ensures
        lower_run_end(s, i) == i + w.len(),
    decreases w.len(),
{
    lemma_occurs_chars(s, i, w);
    if w.len() > 0 {
        let rest = w.subrange(1, w.len() as int);
        assert(is_lower(w[0]));
        assert(s[i] == w[0]);
        assert(s.subrange(i + 1, i + 1 + rest.len()) =~= rest);
        assert forall|k: int| 0 <= k < rest.len() implies is_lower(#[trigger] rest[k]) by {
            assert(rest[k] == w[k + 1]);
            assert(is_lower(w[k + 1]));
        }
        lemma_lower_run(s, i + 1, rest);
    }
}

proof fn lemma_digit_of(d: nat)
    requires
        d < 10,
    ensures
        is_digit(digit_char(d)),
        crate::lexer::digit_of(digit_char(d)) == d,
{
}

/// The decimal text of a number is a non-empty run of digits that writes it.
pub proof fn lemma_decimal(n: nat)
    ensures
        decimal(n).len() > 0,
        forall|k: int| 0 <= k < decimal(n).len() ==> is_digit(#[trigger] decimal(n)[k]),
        digits_value(decimal(n)) == n,
    decreases n,
{
    let d = decimal(n);
    if n < 10 {
        lemma_digit_of(n);
        assert(d.drop_last() =~= Seq::<char>::empty());
        assert(digits_value(Seq::<char>::empty()) == 0);
        assert(d.last() == digit_char(n));
        assert(digits_value(d) == digits_value(d.drop_last()) * 10 + crate::lexer::digit_of(
            d.last(),
        ));
    } else {
        lemma_decimal(n / 10);
        lemma_digit_of(n % 10);
        assert(d.drop_last() =~= decimal(n / 10));
        assert(d.last() == digit_char(n % 10));
        assert(n == (n / 10) * 10 + n % 10);
        assert(digits_value(d) == digits_value(d.drop_last()) * 10 + crate::lexer::digit_of(
            d.last(),
        ));
    }
}

proof fn lemma_lex_number(s: Seq<char>, j: int, n: nat)
    requires
        occurs_at(s, j, decimal(n)),
        n <= i64::MAX,
        ends_token(s, j + decimal(n).len()),
    ensures
        lex_from(s, j) == prepend(seq![Token::Integer(n as i64)], lex_from(s, j + decimal(n).len())),
{
    lemma_decimal(n);
    lemma_occurs_chars(s, j, decimal(n));
    lemma_digit_run(s, j, decimal(n));
    assert(is_digit(s[j]));
}

proof fn lemma_lex_word(s: Seq<char>, j: int, w: Seq<char>)
    requires
        occurs_at(s, j, w),
        w.len() > 0,
        forall|k: int| 0 <= k < w.len() ==> is_lower(#[trigger] w[k]),
        ends_token(s, j + w.len()),
    ensures
        lex_from(s, j) == prepend(seq![word_token(w)], lex_from(s, j + w.len())),
{
    lemma_occurs_chars(s, j, w);
    lemma_lower_run(s, j, w);
    assert(is_lower(s[j]));
}

proof fn lemma_lex_space(s: Seq<char>, j: int)
    requires
        0 <= j < s.len(),
        s[j] == ' ',
    ensures
        lex_from(s, j) == lex_from(s, j + 1),
{
}

proof fn lemma_lex_symbol(s: Seq<char>, j: int, t: Token)
    requires
        0 <= j < s.len(),
        symbol_token(s[j]) == Some(t),
    ensures
        lex_from(s, j) == prepend(seq![t], lex_from(s, j + 1)),
{
}

proof fn lemma_lex_binary_symbol(s: Seq<char>, j: int, op: BinaryOperator)
    requires
        occurs_at(s, j, binary_symbol(op)),
        j + binary_symbol(op).len() < s.len(),
        s[j + binary_symbol(op).len()] == ' ',
    ensures
        binary_symbol(op).len() == 1,
        lex_from(s, j) == prepend(seq![Token::BinaryOp(op)], lex_from(s, j + 1)),
{
    reveal_strlit("+");
    reveal_strlit("-");
    reveal_strlit("*");
    reveal_strlit("/");
    reveal_strlit("<");
    reveal_strlit("=");
    reveal_strlit("&");
    reveal_strlit("|");
    lemma_occurs_chars(s, j, binary_symbol(op));
    assert(s[j] == binary_symbol(op)[0]);
    match op {
        BinaryOperator::Equals => {
            assert(s[j] == '=');
        },
        _ => {
            assert(symbol_token(s[j]) == Some(Token::BinaryOp(op)));
        },
    }
}

proof fn lemma_render_texts()
    ensures
        " "@ == seq![' '],
        "T"@ == seq!['T'],
        "F"@ == seq!['F'],
        "!"@ == seq!['!'],
        "func "@ == seq!['f', 'u', 'n', 'c'] + seq![' '],
        " => "@ == seq![' ', '=', '>', ' '],
        "if "@ == seq!['i', 'f'] + seq![' '],
        " then "@ == seq![' '] + (seq!['t', 'h', 'e', 'n'] + seq![' ']),
        " else "@ == seq![' '] + (seq!['e', 'l', 's', 'e'] + seq![' ']),
        " ("@ == seq![' ', '('],
        ")"@ == seq![')'],
{
    reveal_strlit(" ");
    reveal_strlit("T");
    reveal_strlit("F");
    reveal_strlit("!");
    reveal_strlit("func ");
    reveal_strlit(" => ");
    reveal_strlit("if ");
    reveal_strlit(" then ");
    reveal_strlit(" else ");
    reveal_strlit(" (");
    reveal_strlit(")");
    assert(" "@ =~= seq![' ']);
    assert("T"@ =~= seq!['T']);
    assert("F"@ =~= seq!['F']);
    assert("!"@ =~= seq!['!']);
    assert("func "@ =~= seq!['f', 'u', 'n', 'c'] + seq![' ']);
    assert(" => "@ =~= seq![' ', '=', '>', ' ']);
    assert("if "@ =~= seq!['i', 'f'] + seq![' ']);
    assert(" then "@ =~= seq![' '] + (seq!['t', 'h', 'e', 'n'] + seq![' ']));
    assert(" else "@ =~= seq![' '] + (seq!['e', 'l', 's', 'e'] + seq![' ']));
    assert(" ("@ =~= seq![' ', '(']);
    assert(")"@ =~= seq![')']);
}

/// A keyword followed by a space.
proof fn lemma_lex_keyword(s: Seq<char>, j: int, w: Seq<char>)
    requires
        occurs_at(s, j, w + seq![' ']),
        w.len() > 0,
        forall|k: int| 0 <= k < w.len() ==> is_lower(#[trigger] w[k]),
    ensures
        lex_from(s, j) == prepend(seq![word_token(w)], lex_from(s, j + w.len() + 1)),
{
    lemma_occurs_split(s, j, w, seq![' ']);
    lemma_occurs_one(s, j + w.len(), ' ');
    lemma_lex_word(s, j, w);
    lemma_lex_space(s, j + w.len());
}

/// The rendered text of a lexical tree lexes to its rendered tokens, wherever it
/// stands, when a token ends right after it.
#[verifier::spinoff_prover]
#[verifier::rlimit(100)]
pub proof fn lemma_lex_rendered(e: Expression, s: Seq<char>, i: int)
    requires
        lexical_expr(e),
        occurs_at(s, i, render_spec(e)),
        ends_token(s, i + render_spec(e).len()),
    ensures
        lex_from(s, i) == prepend(
            view_tokens(render_items(e)),
            lex_from(s, i + render_spec(e).len()),
        ),
    decreases e,
{
    lemma_render_texts();
    let end = i + render_spec(e).len();
    let rest = lex_from(s, end);
    match e {
        Expression::Integer(n) => {
            assert(render_spec(e) == decimal(n as nat));
            lemma_lex_number(s, i, n as nat);
            assert(view_tokens(render_items(e)) =~= seq![Token::Integer(n)]);
        },
        Expression::Variable(x) => {
            lemma_lex_word(s, i, x@);
            assert(view_tokens(render_items(e)) =~= seq![Token::Variable(x@)]);
        },
        Expression::Boolean(b) => {
            lemma_occurs_one(s, i, if b { 'T' } else { 'F' });
            lemma_lex_symbol(s, i, Token::Boolean(b));
            assert(view_tokens(render_items(e)) =~= seq![Token::Boolean(b)]);
        },
        Expression::UnaryOp { op, child } => {
            let rc = render_spec(*child);
            lemma_occurs_split(s, i, "!"@, rc);
            lemma_occurs_one(s, i, '!');
            lemma_lex_symbol(s, i, Token::UnaryOp(op));
            lemma_lex_rendered(*child, s, i + 1);
            let vc = view_tokens(render_items(*child));
            lemma_prepend_prepend(seq![Token::UnaryOp(op)], vc, rest);
            assert(view_tokens(render_items(e)) =~= seq![Token::UnaryOp(op)] + vc);
        },
        Expression::BinaryOp { op, lhs, rhs } => {
            let rl = render_spec(*lhs);
            let rr = render_spec(*rhs);
            let sym = binary_symbol(op);
            lemma_occurs_split(s, i, rl + " "@ + sym + " "@, rr);
            lemma_occurs_split(s, i, rl + " "@ + sym, " "@);
            lemma_occurs_split(s, i, rl + " "@, sym);
            lemma_occurs_split(s, i, rl, " "@);
            let j = i + rl.len();
            lemma_occurs_one(s, j, ' ');
            lemma_occurs_one(s, j + 1 + sym.len(), ' ');
            lemma_lex_binary_symbol(s, j + 1, op);
            lemma_lex_rendered(*lhs, s, i);
            lemma_lex_space(s, j);
            lemma_lex_space(s, j + 2);
            lemma_lex_rendered(*rhs, s, j + 3);
            let vl = view_tokens(render_items(*lhs));
            let vr = view_tokens(render_items(*rhs));
            lemma_prepend_prepend(seq![Token::BinaryOp(op)], vr, rest);
            lemma_prepend_prepend(vl, seq![Token::BinaryOp(op)] + vr, rest);
            assert(view_tokens(render_items(e)) =~= vl + (seq![Token::BinaryOp(op)] + vr));
        },
        Expression::Func { param, body } => {
            let rb = render_spec(*body);
            let kw = seq!['f', 'u', 'n', 'c'];
            lemma_occurs_split(s, i, "func "@ + param@ + " => "@, rb);
            lemma_occurs_split(s, i, "func "@ + param@, " => "@);
            lemma_occurs_split(s, i, "func "@, param@);
            let j = i + 5 + param@.len();
            lemma_occurs_chars(s, j, " => "@);
            assert(s[j] == ' ' && s[j + 1] == '=' && s[j + 2] == '>' && s[j + 3] == ' ');
            lemma_lex_keyword(s, i, kw);
            lemma_lex_word(s, i + 5, param@);
            lemma_lex_space(s, j);
            assert(lex_from(s, j + 1) == prepend(seq![Token::Arrow], lex_from(s, j + 3)));
            lemma_lex_space(s, j + 3);
            lemma_lex_rendered(*body, s, j + 4);
            let vb = view_tokens(render_items(*body));
            let head = seq![Token::Func, Token::Variable(param@), Token::Arrow];
            lemma_prepend_prepend(seq![Token::Arrow], vb, rest);
            lemma_prepend_prepend(seq![Token::Variable(param@)], seq![Token::Arrow] + vb, rest);
            lemma_prepend_prepend(
                seq![Token::Func],
                seq![Token::Variable(param@)] + (seq![Token::Arrow] + vb),
                rest,
            );
            assert(view_tokens(render_items(e)) =~= seq![Token::Func] + (seq![
                Token::Variable(param@),
            ] + (seq![Token::Arrow] + vb)));
        },
        Expression::If { condition, then_expr, else_expr } => {
            let rc = render_spec(*condition);
            let rt = render_spec(*then_expr);
            let re = render_spec(*else_expr);
            let a1 = "if "@ + rc;
            let a2 = a1 + " then "@;
            let a3 = a2 + rt;
            let a4 = a3 + " else "@;
            lemma_occurs_split(s, i, a4, re);
            lemma_occurs_split(s, i, a3, " else "@);
            lemma_occurs_split(s, i, a2, rt);
            lemma_occurs_split(s, i, a1, " then "@);
            lemma_occurs_split(s, i, "if "@, rc);
            lemma_occurs_split(s, i + a1.len(), seq![' '], seq!['t', 'h', 'e', 'n'] + seq![' ']);
            lemma_occurs_split(s, i + a3.len(), seq![' '], seq!['e', 'l', 's', 'e'] + seq![' ']);
            lemma_occurs_one(s, i + a1.len(), ' ');
            lemma_occurs_one(s, i + a3.len(), ' ');
            lemma_lex_keyword(s, i, seq!['i', 'f']);
            lemma_lex_rendered(*condition, s, i + 3);
            lemma_lex_space(s, i + a1.len());
            lemma_lex_keyword(s, i + a1.len() + 1, seq!['t', 'h', 'e', 'n']);
            lemma_lex_rendered(*then_expr, s, i + a2.len());
            lemma_lex_space(s, i + a3.len());
            lemma_lex_keyword(s, i + a3.len() + 1, seq!['e', 'l', 's', 'e']);
            lemma_lex_rendered(*else_expr, s, i + a4.len());
            let vc = view_tokens(render_items(*condition));
            let vt = view_tokens(render_items(*then_expr));
            let ve = view_tokens(render_items(*else_expr));
            lemma_prepend_prepend(seq![Token::Else], ve, rest);
            lemma_prepend_prepend(vt, seq![Token::Else] + ve, rest);
            lemma_prepend_prepend(seq![Token::Then], vt + (seq![Token::Else] + ve), rest);
            lemma_prepend_prepend(vc, seq![Token::Then] + (vt + (seq![Token::Else] + ve)), rest);
            lemma_prepend_prepend(
                seq![Token::If],
                vc + (seq![Token::Then] + (vt + (seq![Token::Else] + ve))),
                rest,
            );
            assert(view_tokens(render_items(e)) =~= seq![Token::If] + (vc + (seq![Token::Then] + (vt
                + (seq![Token::Else] + ve)))));
        },
        Expression::Apply { func_expr, arg_expr } => {
            let rf = render_spec(*func_expr);
            let ra = render_spec(*arg_expr);
            lemma_occurs_split(s, i, rf + " ("@ + ra, ")"@);
            lemma_occurs_split(s, i, rf + " ("@, ra);
            lemma_occurs_split(s, i, rf, " ("@);
            let j = i + rf.len();
            lemma_occurs_chars(s, j, " ("@);
            lemma_occurs_one(s, j + 2 + ra.len(), ')');
            lemma_lex_rendered(*func_expr, s, i);
            lemma_lex_space(s, j);
            lemma_lex_symbol(s, j + 1, Token::OpenParen);
            lemma_lex_rendered(*arg_expr, s, j + 2);
            lemma_lex_symbol(s, j + 2 + ra.len(), Token::CloseParen);
            let vf = view_tokens(render_items(*func_expr));
            let va = view_tokens(render_items(*arg_expr));
            lemma_prepend_prepend(va, seq![Token::CloseParen], rest);
            lemma_prepend_prepend(seq![Token::OpenParen], va + seq![Token::CloseParen], rest);
            lemma_prepend_prepend(vf, seq![Token::OpenParen] + (va + seq![Token::CloseParen]), rest);
            assert(view_tokens(render_items(e)) =~= vf + (seq![Token::OpenParen] + (va + seq![
                Token::CloseParen,
            ])));
        },
    }
}

/// A tree parsed from lexical tokens is lexical.
pub proof fn lemma_parse_lexical(toks: Seq<LexItem>, pos: int)
    requires
        forall|k: int| 0 <= k < toks.len() ==> lexical_token(#[trigger] toks[k]),
    ensures
        parse_at(toks, pos) is Ok ==> lexical_expr(parse_at(toks, pos)->Ok_0.0),
    decreases toks.len() - pos,
{
    if 0 <= pos < toks.len() {
        assert(lexical_token(toks[pos]));
        match toks[pos] {
            LexItem::UnaryOp(_) => lemma_parse_lexical(toks, pos + 1),
            LexItem::BinaryOp(_) | LexItem::Apply => {
                if has_token(toks, pos + 1, Expected::OpenParen) {
                    lemma_parse_lexical(toks, pos + 2);
                    match parse_at(toks, pos + 2) {
                        Ok((_, p1)) => {
                            if pos < p1 && has_token(toks, p1, Expected::Comma) {
                                lemma_parse_lexical(toks, p1 + 1);
                            }
                        },
                        Err(_) => {},
                    }
                }
            },
            LexItem::Func => {
                if has_token(toks, pos + 1, Expected::VariableName) && has_token(
                    toks,
                    pos + 2,
                    Expected::Arrow,
                ) {
                    assert(lexical_token(toks[pos + 1]));
                    lemma_parse_lexical(toks, pos + 3);
                }
            },
            LexItem::If => {
                lemma_parse_lexical(toks, pos + 1);
                match parse_at(toks, pos + 1) {
                    Ok((_, p1)) => {
                        if pos < p1 && has_token(toks, p1, Expected::Then) {
                            lemma_parse_lexical(toks, p1 + 1);
                            match parse_at(toks, p1 + 1) {
                                Ok((_, p2)) => {
                                    if pos < p2 && has_token(toks, p2, Expected::Else) {
                                        lemma_parse_lexical(toks, p2 + 1);
                                    }
                                },
                                Err(_) => {},
                            }
                        }
                    },
                    Err(_) => {},
                }
            },
            _ => {},
        }
    }
}

/// Whether parsing succeeds, and where it stops, depends on the tokens' models alone.
pub proof fn lemma_parse_same_views(a: Seq<LexItem>, b: Seq<LexItem>, pos: int)
    requires
        view_tokens(a) == view_tokens(b),
    ensures
        parse_at(a, pos) is Ok <==> parse_at(b, pos) is Ok,
        parse_at(a, pos) is Ok ==> parse_at(a, pos)->Ok_0.1 == parse_at(b, pos)->Ok_0.1,
    decreases a.len() - pos,
{
    assert(a.len() == view_tokens(a).len() && b.len() == view_tokens(b).len());
    assert forall|p: int, kind: Expected| #[trigger] has_token(a, p, kind) == has_token(b, p, kind) by {
        if 0 <= p < a.len() {
            assert(view_tokens(a)[p] == a[p]@ && view_tokens(b)[p] == b[p]@);
        }
    }
    if 0 <= pos < a.len() {
        assert(view_tokens(a)[pos] == a[pos]@ && view_tokens(b)[pos] == b[pos]@);
        match a[pos] {
            LexItem::UnaryOp(_) => lemma_parse_same_views(a, b, pos + 1),
            LexItem::BinaryOp(_) | LexItem::Apply => {
                if has_token(a, pos + 1, Expected::OpenParen) {
                    lemma_parse_same_views(a, b, pos + 2);
                    match parse_at(a, pos + 2) {
                        Ok((_, p1)) => {
                            if pos < p1 && has_token(a, p1, Expected::Comma) {
                                lemma_parse_same_views(a, b, p1 + 1);
                            }
                        },
                        Err(_) => {},
                    }
                }
            },
            LexItem::Func => {
                if has_token(a, pos + 1, Expected::VariableName) && has_token(
                    a,
                    pos + 2,
                    Expected::Arrow,
                ) {
                    lemma_parse_same_views(a, b, pos + 3);
                }
            },
            LexItem::If => {
                lemma_parse_same_views(a, b, pos + 1);
                match parse_at(a, pos + 1) {
                    Ok((_, p1)) => {
                        if pos < p1 && has_token(a, p1, Expected::Then) {
                            lemma_parse_same_views(a, b, p1 + 1);
                            match parse_at(a, p1 + 1) {
                                Ok((_, p2)) => {
                                    if pos < p2 && has_token(a, p2, Expected::Else) {
                                        lemma_parse_same_views(a, b, p2 + 1);
                                    }
                                },
                                Err(_) => {},
                            }
                        }
                    },
                    Err(_) => {},
                }
            },
            _ => {},
        }
    }
}

/// Rendering a tree parsed from lexer tokens gives a text that lexes, and whose
/// tokens parse again exactly when the tree `reparses`. The text drops the
/// parentheses of binary operators and applications, so where one of them is the
/// condition or the then-branch of a conditional on the tree's leftmost path, the
/// parser stops inside it and finds no `then` or `else`; every other tree
/// reparses.
pub proof fn law_rendered_parse_reparses(toks: Seq<LexItem>)
    requires
        forall|k: int| 0 <= k < toks.len() ==> lexical_token(#[trigger] toks[k]),
        parse_at(toks, 0) is Ok,
    ensures
        lex_spec(render_spec(parse_at(toks, 0)->Ok_0.0)) is Ok,
        forall|again: Seq<LexItem>|
            view_tokens(again) == lex_spec(render_spec(parse_at(toks, 0)->Ok_0.0))->Ok_0
                ==> (#[trigger] parse_at(again, 0) is Ok <==> reparses(
                parse_at(toks, 0)->Ok_0.0,
            )),
{
    let e = parse_at(toks, 0)->Ok_0.0;
    lemma_parse_lexical(toks, 0);
    let s = render_spec(e);
    assert(s.subrange(0, s.len() as int) =~= s);
    lemma_lex_rendered(e, s, 0);
    let items = render_items(e);
    assert(view_tokens(items) + Seq::<Token>::empty() =~= view_tokens(items));
    assert(lex_spec(s) == Ok::<Seq<Token>, LexError>(view_tokens(items)));
    assert(items.subrange(0, items.len() as int) =~= items);
    lemma_parse_rendered_items(e, items, 0);
    assert forall|again: Seq<LexItem>| view_tokens(again) == lex_spec(s)->Ok_0 implies (
    #[trigger] parse_at(again, 0) is Ok <==> reparses(e)) by {
        lemma_parse_same_views(items, again, 0);
    }
}

} // verus!
