use vstd::prelude::*;

use crate::expression::{BinaryOperator, UnaryOperator};

verus! {

/// A token of the language.
#[derive(Debug, Clone, PartialEq)]
pub enum LexItem {
    OpenParen,
    CloseParen,
    Comma,
    Integer(i64),
    Variable(String),
    Boolean(bool),
    If,
    Then,
    Else,
    Func,
    Apply,
    BinaryOp(BinaryOperator),
    UnaryOp(UnaryOperator),
    Arrow,
}

/// The mathematical model of a token: a variable's name is a sequence of characters.
pub enum Token {
    OpenParen,
    CloseParen,
    Comma,
    Integer(i64),
    Variable(Seq<char>),
    Boolean(bool),
    If,
    Then,
    Else,
    Func,
    Apply,
    BinaryOp(BinaryOperator),
    UnaryOp(UnaryOperator),
    Arrow,
}

impl View for LexItem {
    type V = Token;

    open spec fn view(&self) -> Token {
        match self {
            LexItem::OpenParen => Token::OpenParen,
            LexItem::CloseParen => Token::CloseParen,
            LexItem::Comma => Token::Comma,
            LexItem::Integer(n) => Token::Integer(*n),
            LexItem::Variable(x) => Token::Variable(x@),
            LexItem::Boolean(b) => Token::Boolean(*b),
            LexItem::If => Token::If,
            LexItem::Then => Token::Then,
            LexItem::Else => Token::Else,
            LexItem::Func => Token::Func,
            LexItem::Apply => Token::Apply,
            LexItem::BinaryOp(op) => Token::BinaryOp(*op),
            LexItem::UnaryOp(op) => Token::UnaryOp(*op),
            LexItem::Arrow => Token::Arrow,
        }
    }
}

/// The models of a sequence of tokens.
pub open spec fn view_tokens(ts: Seq<LexItem>) -> Seq<Token> {
    ts.map_values(|t: LexItem| t@)
}

/// Why lexing failed.
#[derive(Debug, Clone, Copy, PartialEq, Eq, Structural)]
pub enum LexError {
    UnexpectedCharacter(char),
    IntegerOverflow,
}

/// The human-readable message of a lexing error.
pub open spec fn lex_error_text(e: LexError) -> Seq<char> {
    match e {
        LexError::UnexpectedCharacter(c) => "unexpected character "@ + seq![c],
        LexError::IntegerOverflow => "integer literal does not fit in 64 bits"@,
    }
}

/// Relies on std's `String::from(char)`: the string of that one character.
#[verifier::external_body]
fn char_string(c: char) -> (r: String)
    ensures
        r@ == seq![c],
{
    String::from(c)
}

impl LexError {
    /// The human-readable message of the error.
    pub fn message(&self) -> (r: String)
        ensures
            r@ == lex_error_text(*self),
    {
        match self {
            LexError::UnexpectedCharacter(c) => {
                let mut s = <String as StringExecFns>::from_str("unexpected character ");
                let t = char_string(*c);
                s.append(t.as_str());
                s
            },
            LexError::IntegerOverflow => <String as StringExecFns>::from_str(
                "integer literal does not fit in 64 bits",
            ),
        }
    }
}

pub open spec fn is_digit(c: char) -> bool {
    '0' <= c <= '9'
}

pub open spec fn is_lower(c: char) -> bool {
    'a' <= c <= 'z'
}

/// The value of a digit character.
pub open spec fn digit_of(c: char) -> nat {
    ((c as u32) - ('0' as u32)) as nat
}

/// The number that a run of decimal digits writes.
pub open spec fn digits_value(d: Seq<char>) -> nat
    decreases d.len(),
{
    if d.len() == 0 {
        0
    } else {
        digits_value(d.drop_last()) * 10 + digit_of(d.last())
    }
}

/// Where the run of digits that starts at `i` ends.
pub open spec fn digit_run_end(s: Seq<char>, i: int) -> int
    decreases s.len() - i,
{
    if 0 <= i < s.len() && is_digit(s[i]) {
        digit_run_end(s, i + 1)
    } else {
        i
    }
}

/// Where the run of lowercase letters that starts at `i` ends.
pub open spec fn lower_run_end(s: Seq<char>, i: int) -> int
    decreases s.len() - i,
{
    if 0 <= i < s.len() && is_lower(s[i]) {
        lower_run_end(s, i + 1)
    } else {
        i
    }
}

pub proof fn lemma_digit_run_end_bounds(s: Seq<char>, i: int)
    requires
        0 <= i <= s.len(),
    ensures
        i <= digit_run_end(s, i) <= s.len(),
    decreases s.len() - i,
{
    if i < s.len() && is_digit(s[i]) {
        lemma_digit_run_end_bounds(s, i + 1);
    }
}

pub proof fn lemma_lower_run_end_bounds(s: Seq<char>, i: int)
    requires
        0 <= i <= s.len(),
    ensures
        i <= lower_run_end(s, i) <= s.len(),
    decreases s.len() - i,
{
    if i < s.len() && is_lower(s[i]) {
        lemma_lower_run_end_bounds(s, i + 1);
    }
}

/// A run of lowercase letters is a keyword or else a variable.
pub open spec fn word_token(w: Seq<char>) -> Token {
    if w == seq!['i', 'f'] {
        Token::If
    } else if w == seq!['t', 'h', 'e', 'n'] {
        Token::Then
    } else if w == seq!['e', 'l', 's', 'e'] {
        Token::Else
    } else if w == seq!['f', 'u', 'n', 'c'] {
        Token::Func
    } else if w == seq!['a', 'p', 'p', 'l', 'y'] {
        Token::Apply
    } else {
        Token::Variable(w)
    }
}

/// The token of a character that stands alone (not `=`, which looks ahead).
pub open spec fn symbol_token(c: char) -> Option<Token> {
    if c == 'T' {
        Some(Token::Boolean(true))
    } else if c == 'F' {
        Some(Token::Boolean(false))
    } else if c == '+' {
        Some(Token::BinaryOp(BinaryOperator::Add))
    } else if c == '-' {
        Some(Token::BinaryOp(BinaryOperator::Subtract))
    } else if c == '*' {
        Some(Token::BinaryOp(BinaryOperator::Multiply))
    } else if c == '/' {
        Some(Token::BinaryOp(BinaryOperator::Divide))
    } else if c == '<' {
        Some(Token::BinaryOp(BinaryOperator::LessThan))
    } else if c == '&' {
        Some(Token::BinaryOp(BinaryOperator::And))
    } else if c == '|' {
        Some(Token::BinaryOp(BinaryOperator::Or))
    } else if c == '!' {
        Some(Token::UnaryOp(UnaryOperator::Not))
    } else if c == '(' {
        Some(Token::OpenParen)
    } else if c == ')' {
        Some(Token::CloseParen)
    } else if c == ',' {
        Some(Token::Comma)
    } else {
        None
    }
}

/// `pre` followed by the tokens of `rest`, or the error of `rest`.
pub open spec fn prepend(pre: Seq<Token>, rest: Result<Seq<Token>, LexError>) -> Result<
    Seq<Token>,
    LexError,
> {
    match rest {
        Ok(ts) => Ok(pre + ts),
        Err(e) => Err(e),
    }
}

/// The tokens of `s` from position `i` on, one maximal token per step.
pub open spec fn lex_from(s: Seq<char>, i: int) -> Result<Seq<Token>, LexError>
    decreases s.len() - i,
{
    if i < 0 || i >= s.len() {
        Ok(Seq::empty())
    } else {
        let c = s[i];
        if is_digit(c) {
            let j = digit_run_end(s, i);
            proof {
                lemma_digit_run_end_bounds(s, i + 1);
            }
            let v = digits_value(s.subrange(i, j));
            if v > i64::MAX {
                Err(LexError::IntegerOverflow)
            } else {
                prepend(seq![Token::Integer(v as i64)], lex_from(s, j))
            }
        } else if is_lower(c) {
            let j = lower_run_end(s, i);
            proof {
                lemma_lower_run_end_bounds(s, i + 1);
            }
            prepend(seq![word_token(s.subrange(i, j))], lex_from(s, j))
        } else if c == ' ' || c == '\t' {
            lex_from(s, i + 1)
        } else if c == '=' {
            if i + 1 < s.len() && s[i + 1] == '>' {
                prepend(seq![Token::Arrow], lex_from(s, i + 2))
            } else {
                prepend(seq![Token::BinaryOp(BinaryOperator::Equals)], lex_from(s, i + 1))
            }
        } else {
            match symbol_token(c) {
                Some(t) => prepend(seq![t], lex_from(s, i + 1)),
                None => Err(LexError::UnexpectedCharacter(c)),
            }
        }
    }
}

/// The tokens of a whole text.
pub open spec fn lex_spec(s: Seq<char>) -> Result<Seq<Token>, LexError> {
    lex_from(s, 0)
}

/// A longer run of digits writes a number at least as large.
pub proof fn lemma_digits_value_grows(s: Seq<char>, a: int, b: int, c: int)
    requires
        0 <= a <= b <= c <= s.len(),
    ensures
        digits_value(s.subrange(a, b)) <= digits_value(s.subrange(a, c)),
    decreases c - b,
{
    if b < c {
        lemma_digits_value_grows(s, a, b, c - 1);
        assert(s.subrange(a, c).drop_last() =~= s.subrange(a, c - 1));
    }
}

proof fn lemma_prepend_push(pre: Seq<LexItem>, t: LexItem, rest: Result<Seq<Token>, LexError>)
    ensures
        prepend(view_tokens(pre.push(t)), rest) == prepend(
            view_tokens(pre),
            prepend(seq![t@], rest),
        ),
{
    assert(view_tokens(pre.push(t)) =~= view_tokens(pre) + seq![t@]);
    match rest {
        Ok(ts) => {
            assert((view_tokens(pre) + seq![t@]) + ts =~= view_tokens(pre) + (seq![t@] + ts));
        },
        Err(_) => {},
    }
}

fn is_digit_char(c: char) -> (r: bool)
    ensures
        r == is_digit(c),
{
    '0' <= c && c <= '9'
}

fn is_lower_char(c: char) -> (r: bool)
    ensures
        r == is_lower(c),
{
    'a' <= c && c <= 'z'
}

/// Reads the number written by the run of digits that starts at `start`, and
/// where that run ends.
fn scan_number(input: &str, start: usize) -> (r: Result<(i64, usize), LexError>)
    requires
        start < input@.len(),
    ensures
        match r {
            Ok((v, j)) => j == digit_run_end(input@, start as int) && v as int == digits_value(
                input@.subrange(start as int, j as int),
            ),
            Err(e) => e == LexError::IntegerOverflow && digits_value(
                input@.subrange(start as int, digit_run_end(input@, start as int)),
            ) > i64::MAX,
        },
{
    let n = input.unicode_len();
    let mut j = start;
    let mut value: i64 = 0;
    proof {
        assert(input@.subrange(start as int, start as int) =~= Seq::<char>::empty());
    }
    while j < n && is_digit_char(input.get_char(j))
        invariant
            n == input@.len(),
            start <= j <= n,
            digit_run_end(input@, start as int) == digit_run_end(input@, j as int),
            value as int == digits_value(input@.subrange(start as int, j as int)),
        decreases n - j,
    {
        let c = input.get_char(j);
        let d = (c as u32 - '0' as u32) as i64;
        let ghost s = input@;
        proof {
            assert(s.subrange(start as int, j + 1).drop_last() =~= s.subrange(start as int, j as int));
            lemma_digit_run_end_bounds(s, j + 1);
            lemma_digits_value_grows(s, start as int, j + 1, digit_run_end(s, j + 1));
        }
        match value.checked_mul(10) {
            Some(t) => match t.checked_add(d) {
                Some(u) => {
                    value = u;
                },
                None => {
                    return Err(LexError::IntegerOverflow);
                },
            },
            None => {
                return Err(LexError::IntegerOverflow);
            },
        }
        j = j + 1;
    }
    Ok((value, j))
}

/// Where the run of lowercase letters that starts at `start` ends.
fn scan_word(input: &str, start: usize) -> (j: usize)
    requires
        start <= input@.len(),
    ensures
        j == lower_run_end(input@, start as int),
        start <= j <= input@.len(),
{
    let n = input.unicode_len();
    let mut j = start;
    while j < n && is_lower_char(input.get_char(j))
        invariant
            n == input@.len(),
            start <= j <= n,
            lower_run_end(input@, start as int) == lower_run_end(input@, j as int),
        decreases n - j,
    {
        j = j + 1;
    }
    j
}

/// The keyword or variable token of the letters from `start` to `end`.
fn word_item(input: &str, start: usize, end: usize) -> (t: LexItem)
    requires
        start <= end <= input@.len(),
    ensures
        t@ == word_token(input@.subrange(start as int, end as int)),
{
    let w = input.substring_char(start, end);
    let len = end - start;
    proof {
        let (kif, kthen, kelse) = (seq!['i', 'f'], seq!['t', 'h', 'e', 'n'], seq!['e', 'l', 's', 'e']);
        let (kfunc, kapply) = (seq!['f', 'u', 'n', 'c'], seq!['a', 'p', 'p', 'l', 'y']);
        assert(kif.len() == 2 && kif[0] == 'i' && kif[1] == 'f');
        assert(kthen.len() == 4 && kthen[0] == 't' && kthen[1] == 'h' && kthen[2] == 'e'
            && kthen[3] == 'n');
        assert(kelse.len() == 4 && kelse[0] == 'e' && kelse[1] == 'l' && kelse[2] == 's'
            && kelse[3] == 'e');
        assert(kfunc.len() == 4 && kfunc[0] == 'f' && kfunc[1] == 'u' && kfunc[2] == 'n'
            && kfunc[3] == 'c');
        assert(kapply.len() == 5 && kapply[0] == 'a' && kapply[1] == 'p' && kapply[2] == 'p'
            && kapply[3] == 'l' && kapply[4] == 'y');
    }
    if len == 2 && w.get_char(0) == 'i' && w.get_char(1) == 'f' {
        assert(w@ =~= seq!['i', 'f']);
        LexItem::If
    } else if len == 4 && w.get_char(0) == 't' && w.get_char(1) == 'h' && w.get_char(2) == 'e'
        && w.get_char(3) == 'n' {
        assert(w@ =~= seq!['t', 'h', 'e', 'n']);
        LexItem::Then
    } else if len == 4 && w.get_char(0) == 'e' && w.get_char(1) == 'l' && w.get_char(2) == 's'
        && w.get_char(3) == 'e' {
        assert(w@ =~= seq!['e', 'l', 's', 'e']);
        LexItem::Else
    } else if len == 4 && w.get_char(0) == 'f' && w.get_char(1) == 'u' && w.get_char(2) == 'n'
        && w.get_char(3) == 'c' {
        assert(w@ =~= seq!['f', 'u', 'n', 'c']);
        LexItem::Func
    } else if len == 5 && w.get_char(0) == 'a' && w.get_char(1) == 'p' && w.get_char(2) == 'p'
        && w.get_char(3) == 'l' && w.get_char(4) == 'y' {
        assert(w@ =~= seq!['a', 'p', 'p', 'l', 'y']);
        LexItem::Apply
    } else {
        LexItem::Variable(<String as StringExecFns>::from_str(w))
    }
}

/// The token of a character that stands alone, if it is one.
fn symbol_item(c: char) -> (r: Option<LexItem>)
    ensures
        match symbol_token(c) {
            Some(t) => r is Some && r->Some_0@ == t,
            None => r is None,
        },
{
    match c {
        'T' => Some(LexItem::Boolean(true)),
        'F' => Some(LexItem::Boolean(false)),
        '+' => Some(LexItem::BinaryOp(BinaryOperator::Add)),
        '-' => Some(LexItem::BinaryOp(BinaryOperator::Subtract)),
        '*' => Some(LexItem::BinaryOp(BinaryOperator::Multiply)),
        '/' => Some(LexItem::BinaryOp(BinaryOperator::Divide)),
        '<' => Some(LexItem::BinaryOp(BinaryOperator::LessThan)),
        '&' => Some(LexItem::BinaryOp(BinaryOperator::And)),
        '|' => Some(LexItem::BinaryOp(BinaryOperator::Or)),
        '!' => Some(LexItem::UnaryOp(UnaryOperator::Not)),
        '(' => Some(LexItem::OpenParen),
        ')' => Some(LexItem::CloseParen),
        ',' => Some(LexItem::Comma),
        _ => None,
    }
}

/// Splits a text into tokens, left to right, one maximal token per step; spaces
/// and tabs separate tokens, any other character outside the language fails.
pub fn lex(input: &str) -> (r: Result<Vec<LexItem>, LexError>)
    ensures
        r is Ok <==> lex_spec(input@) is Ok,
        r is Ok ==> view_tokens(r->Ok_0@) == lex_spec(input@)->Ok_0,
        r is Err ==> r->Err_0 == lex_spec(input@)->Err_0,
{
    let n = input.unicode_len();
    let mut result: Vec<LexItem> = Vec::new();
    let mut i: usize = 0;
    proof {
        assert(view_tokens(result@) =~= Seq::<Token>::empty());
        match lex_from(input@, 0) {
            Ok(ts) => assert(Seq::<Token>::empty() + ts =~= ts),
            Err(_) => {},
        }
    }
    while i < n
        invariant
            n == input@.len(),
            i <= n,
            lex_spec(input@) == prepend(view_tokens(result@), lex_from(input@, i as int)),
        decreases n - i,
    {
        let c = input.get_char(i);
        let ghost s = input@;
        let ghost before = result@;
        if is_digit_char(c) {
            proof {
                lemma_digit_run_end_bounds(s, i + 1);
            }
            match scan_number(input, i) {
                Ok((v, j)) => {
                    let t = LexItem::Integer(v);
                    proof {
                        lemma_prepend_push(before, t, lex_from(s, j as int));
                    }
                    result.push(t);
                    i = j;
                },
                Err(e) => {
                    return Err(e);
                },
            }
        } else if is_lower_char(c) {
            let j = scan_word(input, i);
            proof {
                lemma_lower_run_end_bounds(s, i + 1);
            }
            let t = word_item(input, i, j);
            proof {
                lemma_prepend_push(before, t, lex_from(s, j as int));
            }
            result.push(t);
            i = j;
        } else if c == ' ' || c == '\t' {
            i = i + 1;
        } else if c == '=' {
            if i + 1 < n && input.get_char(i + 1) == '>' {
                proof {
                    lemma_prepend_push(before, LexItem::Arrow, lex_from(s, i + 2));
                }
                result.push(LexItem::Arrow);
                i = i + 2;
            } else {
                let t = LexItem::BinaryOp(BinaryOperator::Equals);
                proof {
                    lemma_prepend_push(before, t, lex_from(s, i + 1));
                }
                result.push(t);
                i = i + 1;
            }
        } else {
            match symbol_item(c) {
                Some(t) => {
                    proof {
                        lemma_prepend_push(before, t, lex_from(s, i + 1));
                    }
                    result.push(t);
                    i = i + 1;
                },
                None => {
                    return Err(LexError::UnexpectedCharacter(c));
                },
            }
        }
    }
    proof {
        assert(view_tokens(result@) + Seq::<Token>::empty() =~= view_tokens(result@));
    }
    Ok(result)
}

} // verus!
