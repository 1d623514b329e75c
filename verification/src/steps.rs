//! Single steps of the grammar: what each rule makes of a text when it is
//! known what the rules it relies on make of the parts of that text.

use vstd::prelude::*;
use crate::ast::ExpressionSpec;
use crate::error::ErrorKind;
use crate::grammar::{
    after, branches, choice, comparison, conditional, expr, expr1, factor, factor1, gives,
    keyword, less_than, literal, power, primary, starts_conditional, tail, term, term1,
};
use crate::lexer::token;
use crate::reading::reads;
use crate::text::rest;
use crate::token::TokenSpec;

verus! {

/// Whether no operator stands at the start of `z`: a token can be read
/// there, or none is left, and it is none of `+ - * / **`.
pub open spec fn neutral(z: Seq<char>) -> bool {
    token(z) matches Ok(found) && !(found matches Some((t, _)) && (t is Add || t is Sub || t is Mult
        || t is Div || t is Pow))
}

/// Where no operator stands, an operand stays as it is.
pub proof fn lemma_stops(e: ExpressionSpec, z: Seq<char>)
    requires
        neutral(z),
    ensures
        term1(e, z) == gives(e, 0),
        expr1(e, z) == gives(e, 0),
        tail(e, z) == gives(e, 0),
        factor1(e, z) == gives(e, 0),
{
    assert(rest(z, 0) =~= z);
    assert(term1(e, z) == gives(e, 0));
    assert(expr1(e, z) == gives(e, 0));
    assert(tail(e, z) == gives(e, 0));
}

/// A name is a primary.
pub proof fn lemma_step_name(s: Seq<char>, x: Seq<char>, n: nat)
    requires
        token(s) == reads(TokenSpec::Ide(x), n),
    ensures
        primary(s) == gives(ExpressionSpec::VariableReference(x), n),
        !starts_conditional(s),
{
}

/// A number is a primary.
pub proof fn lemma_step_number(s: Seq<char>, v: int, n: nat)
    requires
        token(s) == reads(TokenSpec::Num(v), n),
    ensures
        primary(s) == gives(ExpressionSpec::NumberLiteral(v), n),
        literal(s) == gives(ExpressionSpec::NumberLiteral(v), n),
        !starts_conditional(s),
{
    reveal(literal);
}

/// An expression between parentheses is a primary.
pub proof fn lemma_step_group(s: Seq<char>, e: ExpressionSpec, m: nat, k: nat)
    requires
        token(s) == reads(TokenSpec::Open, 1),
        expr(rest(s, 1)) == gives(e, m),
        keyword(rest(s, 1 + m), TokenSpec::Close, ErrorKind::ExpectedClose) == gives((), k),
    ensures
        primary(s) == gives(e, 1 + m + k),
{
}

/// A primary with no operator behind it is an expression, a factor and a
/// product.
pub proof fn lemma_step_operand(s: Seq<char>, e: ExpressionSpec, n: nat)
    requires
        !starts_conditional(s),
        primary(s) == gives(e, n),
        neutral(rest(s, n)),
    ensures
        expr(s) == gives(e, n),
        factor(s) == gives(e, n),
        term(s) == gives(e, n),
{
    lemma_stops(e, rest(s, n));
    assert(expr(s) == after(n, tail(e, rest(s, n))));
    assert(factor(s) == after(n, factor1(e, rest(s, n))));
    assert(term(s) == after(n, term1(e, rest(s, n))));
}

/// A primary and what follows it are an expression.
pub proof fn lemma_step_expr(s: Seq<char>, first: ExpressionSpec, n: nat, e: ExpressionSpec, m: nat)
    requires
        !starts_conditional(s),
        primary(s) == gives(first, n),
        tail(first, rest(s, n)) == gives(e, m),
    ensures
        expr(s) == gives(e, n + m),
{
}

/// `+` and a product, with no operator behind them, go on a sum by the
/// product.
pub proof fn lemma_step_add(l: ExpressionSpec, s: Seq<char>, r: ExpressionSpec, m: nat)
    requires
        token(s) == reads(TokenSpec::Add, 1),
        term(rest(s, 1)) == gives(r, m),
        neutral(rest(s, 1 + m)),
    ensures
        tail(l, s) == gives(ExpressionSpec::Add(Box::new(l), Box::new(r)), 1 + m),
{
    let node = ExpressionSpec::Add(Box::new(l), Box::new(r));
    lemma_stops(node, rest(s, 1 + m));
    assert(rest(s, 0) =~= s);
    assert(term1(l, s) == gives(l, 0));
    assert(expr1(l, s) == gives(node, 1 + m));
}

/// `-` and a product, with no operator behind them, go on a sum by the
/// product.
pub proof fn lemma_step_sub(l: ExpressionSpec, s: Seq<char>, r: ExpressionSpec, m: nat)
    requires
        token(s) == reads(TokenSpec::Sub, 1),
        term(rest(s, 1)) == gives(r, m),
        neutral(rest(s, 1 + m)),
    ensures
        tail(l, s) == gives(ExpressionSpec::Sub(Box::new(l), Box::new(r)), 1 + m),
{
    let node = ExpressionSpec::Sub(Box::new(l), Box::new(r));
    lemma_stops(node, rest(s, 1 + m));
    assert(rest(s, 0) =~= s);
    assert(term1(l, s) == gives(l, 0));
    assert(expr1(l, s) == gives(node, 1 + m));
}

/// `*` and a product, with no operator behind them, make a product.
pub proof fn lemma_step_mult(l: ExpressionSpec, s: Seq<char>, r: ExpressionSpec, m: nat)
    requires
        token(s) == reads(TokenSpec::Mult, 1),
        term(rest(s, 1)) == gives(r, m),
        neutral(rest(s, 1 + m)),
    ensures
        tail(l, s) == gives(ExpressionSpec::Mult(Box::new(l), Box::new(r)), 1 + m),
{
    let node = ExpressionSpec::Mult(Box::new(l), Box::new(r));
    lemma_stops(node, rest(s, 1 + m));
    assert(term1(l, s) == gives(node, 1 + m));
}

/// `/` and a product, with no operator behind them, make a quotient.
pub proof fn lemma_step_div(l: ExpressionSpec, s: Seq<char>, r: ExpressionSpec, m: nat)
    requires
        token(s) == reads(TokenSpec::Div, 1),
        term(rest(s, 1)) == gives(r, m),
        neutral(rest(s, 1 + m)),
    ensures
        tail(l, s) == gives(ExpressionSpec::Div(Box::new(l), Box::new(r)), 1 + m),
{
    let node = ExpressionSpec::Div(Box::new(l), Box::new(r));
    lemma_stops(node, rest(s, 1 + m));
    assert(term1(l, s) == gives(node, 1 + m));
}

/// `**` and a literal, with no operator behind them, raise what was read
/// so far.
pub proof fn lemma_step_pow(b: ExpressionSpec, s: Seq<char>, x: ExpressionSpec, k: nat)
    requires
        token(s) == reads(TokenSpec::Pow, 2),
        literal(rest(s, 2)) == gives(x, k),
        neutral(rest(s, 2 + k)),
    ensures
        tail(b, s) == gives(power(b, x), 2 + k),
{
    let node = power(b, x);
    lemma_stops(node, rest(s, 2 + k));
    assert(rest(s, 0) =~= s);
    assert(term1(b, s) == gives(b, 0));
    assert(expr1(b, s) == gives(node, 2 + k));
}

/// An expression, `<` and an expression are the two sides of a
/// condition.
pub proof fn lemma_step_comparison(
    s: Seq<char>,
    l: ExpressionSpec,
    n: nat,
    k: nat,
    r: ExpressionSpec,
    m: nat,
)
    requires
        expr(s) == gives(l, n),
        less_than(rest(s, n)) == gives((), k),
        expr(rest(s, n + k)) == gives(r, m),
    ensures
        comparison(s) == gives((l, r), n + k + m),
{
}

/// `then`, an expression, `else`, an expression and `fi` are the two
/// branches of a conditional.
pub proof fn lemma_step_branches(
    s: Seq<char>,
    n: nat,
    a: ExpressionSpec,
    m: nat,
    k: nat,
    b: ExpressionSpec,
    j: nat,
    i: nat,
)
    requires
        keyword(s, TokenSpec::Then, ErrorKind::ExpectedThen) == gives((), n),
        expr(rest(s, n)) == gives(a, m),
        keyword(rest(s, n + m), TokenSpec::Else, ErrorKind::ExpectedElse) == gives((), k),
        expr(rest(s, n + m + k)) == gives(b, j),
        keyword(rest(s, n + m + k + j), TokenSpec::Fi, ErrorKind::ExpectedFi) == gives((), i),
    ensures
        branches(s) == gives((a, b), n + m + k + j + i),
{
}

/// `if`, the two sides of a condition and the two branches, with no
/// operator behind them, are a conditional.
pub proof fn lemma_step_conditional(
    s: Seq<char>,
    n: nat,
    l: ExpressionSpec,
    r: ExpressionSpec,
    m: nat,
    a: ExpressionSpec,
    b: ExpressionSpec,
    k: nat,
)
    requires
        starts_conditional(s),
        keyword(s, TokenSpec::If, ErrorKind::ExpectedIf) == gives((), n),
        comparison(rest(s, n)) == gives((l, r), m),
        branches(rest(s, n + m)) == gives((a, b), k),
        neutral(rest(s, n + m + k)),
    ensures
        expr(s) == gives(choice(l, r, a, b), n + m + k),
{
    let e = choice(l, r, a, b);
    lemma_stops(e, rest(s, n + m + k));
    assert(conditional(s) == after(n + m + k, expr1(e, rest(s, n + m + k))));
}

} // verus!
