//! How far the grammar reads: what it uses up lies inside the text, a sum is
//! read for as long as its operators go on, and an operand of a product is
//! never more than its primary.

use vstd::prelude::*;
use crate::ast::ExpressionSpec;
use crate::error::ErrorKind;
use crate::grammar::{
    after, branches, choice, comparison, conditional, expr, expr1, factor, factor1, keyword,
    lemma_word_consumes, less_than, literal, power, primary, starts_conditional, tail, term, term1,
    Parsed,
};
use crate::lexer::{lemma_token_consumes, token};
use crate::text::{lemma_rest_of_rest, rest};
use crate::token::TokenSpec;

verus! {

/// Whether the outcome `r` of reading `s` stays inside `s`: no more is used
/// up than `s` holds, and a fault lies in `s` or at its end.
pub open spec fn within<T>(r: Parsed<T>, s: Seq<char>) -> bool {
    match r {
        Ok((_, n)) => n <= s.len(),
        Err(f) => f.at <= s.len(),
    }
}

/// Whether a sum goes on at the start of `s`: the next token is `+`, `-`
/// or `**`.
pub open spec fn goes_on(s: Seq<char>) -> bool {
    token(s) matches Ok(Some((t, _))) && (t is Add || t is Sub || t is Pow)
}

/// Whether the outcome `r` of reading `s` ends a sum: where it is a tree,
/// a token can be read behind it, or none is left, and the sum does not go
/// on there.
pub open spec fn ends_sum<T>(r: Parsed<T>, s: Seq<char>) -> bool {
    r matches Ok((_, n)) ==> token(rest(s, n)) is Ok && !goes_on(rest(s, n))
}

/// An outcome inside the text behind the first `n` characters is, seen from
/// the start, inside the text.
pub proof fn lemma_after_within<T>(n: nat, r: Parsed<T>, s: Seq<char>)
    requires
        n <= s.len(),
        within(r, rest(s, n)),
    ensures
        within(after(n, r), s),
{
}

/// An outcome that ends a sum behind the first `n` characters ends it seen
/// from the start.
pub proof fn lemma_after_ends_sum<T>(n: nat, r: Parsed<T>, s: Seq<char>)
    requires
        n <= s.len(),
        within(r, rest(s, n)),
        ends_sum(r, rest(s, n)),
    ensures
        ends_sum(after(n, r), s),
{
    if let Ok((_, m)) = r {
        lemma_rest_of_rest(s, n, m);
    }
}

/// A primary stays inside the text.
pub proof fn lemma_primary_within(s: Seq<char>)
    ensures
        within(primary(s), s),
    decreases s.len(), 0nat,
{
    lemma_token_consumes(s);
    if let Ok(Some((TokenSpec::Open, n))) = token(s) {
        lemma_expr_within(rest(s, n));
        if let Ok((_, m)) = expr(rest(s, n)) {
            lemma_word_consumes(rest(s, n + m), TokenSpec::Close, ErrorKind::ExpectedClose);
        }
    }
}

/// The two sides of a condition stay inside the text.
pub proof fn lemma_comparison_within(s: Seq<char>)
    ensures
        within(comparison(s), s),
    decreases s.len(), 3nat,
{
    lemma_expr_extent(s);
    if let Ok((_, n)) = expr(s) {
        lemma_word_consumes(rest(s, n), TokenSpec::Lt, ErrorKind::ExpectedComparator);
        if let Ok((_, k)) = less_than(rest(s, n)) {
            lemma_expr_extent(rest(s, n + k));
        }
    }
}

/// The two branches of a conditional stay inside the text.
pub proof fn lemma_branches_within(s: Seq<char>)
    ensures
        within(branches(s), s),
    decreases s.len(), 0nat,
{
    lemma_word_consumes(s, TokenSpec::Then, ErrorKind::ExpectedThen);
    if let Ok((_, n)) = keyword(s, TokenSpec::Then, ErrorKind::ExpectedThen) {
        lemma_expr_within(rest(s, n));
        if let Ok((_, m)) = expr(rest(s, n)) {
            lemma_word_consumes(rest(s, n + m), TokenSpec::Else, ErrorKind::ExpectedElse);
            if let Ok((_, k)) = keyword(rest(s, n + m), TokenSpec::Else, ErrorKind::ExpectedElse) {
                lemma_expr_within(rest(s, n + m + k));
                if let Ok((_, j)) = expr(rest(s, n + m + k)) {
                    lemma_word_consumes(
                        rest(s, n + m + k + j),
                        TokenSpec::Fi,
                        ErrorKind::ExpectedFi,
                    );
                }
            }
        }
    }
}

/// A conditional stays inside the text and ends a sum.
pub proof fn lemma_conditional_extent(s: Seq<char>)
    ensures
        within(conditional(s), s),
        ends_sum(conditional(s), s),
    decreases s.len(), 0nat,
{
    lemma_word_consumes(s, TokenSpec::If, ErrorKind::ExpectedIf);
    if let Ok((_, n)) = keyword(s, TokenSpec::If, ErrorKind::ExpectedIf) {
        lemma_comparison_within(rest(s, n));
        if let Ok(((left, right), m)) = comparison(rest(s, n)) {
            lemma_branches_within(rest(s, n + m));
            if let Ok(((first, second), k)) = branches(rest(s, n + m)) {
                let e = choice(left, right, first, second);
                lemma_expr1_extent(e, rest(s, n + m + k));
                lemma_after_within(n + m + k, expr1(e, rest(s, n + m + k)), s);
                lemma_after_ends_sum(n + m + k, expr1(e, rest(s, n + m + k)), s);
            }
        }
    }
}

/// What follows an operand of a product stays inside the text.
pub proof fn lemma_term1_within(e: ExpressionSpec, s: Seq<char>)
    ensures
        within(term1(e, s), s),
    decreases s.len(), 0nat,
{
    lemma_token_consumes(s);
    match token(s) {
        Ok(Some((TokenSpec::Mult, n))) => {
            lemma_term_within(rest(s, n));
        },
        Ok(Some((TokenSpec::Div, n))) => {
            lemma_term_within(rest(s, n));
        },
        _ => {},
    }
}

/// What follows a sum stays inside the text and ends the sum.
pub proof fn lemma_expr1_extent(e: ExpressionSpec, s: Seq<char>)
    ensures
        within(expr1(e, s), s),
        ends_sum(expr1(e, s), s),
    decreases s.len(), 0nat,
{
    lemma_token_consumes(s);
    match token(s) {
        Ok(Some((TokenSpec::Add, n))) => {
            lemma_term_within(rest(s, n));
            if let Ok((right, m)) = term(rest(s, n)) {
                let sum = ExpressionSpec::Add(Box::new(e), Box::new(right));
                lemma_expr1_extent(sum, rest(s, n + m));
                lemma_after_within(n + m, expr1(sum, rest(s, n + m)), s);
                lemma_after_ends_sum(n + m, expr1(sum, rest(s, n + m)), s);
            }
        },
        Ok(Some((TokenSpec::Sub, n))) => {
            lemma_term_within(rest(s, n));
            if let Ok((right, m)) = term(rest(s, n)) {
                let sum = ExpressionSpec::Sub(Box::new(e), Box::new(right));
                lemma_expr1_extent(sum, rest(s, n + m));
                lemma_after_within(n + m, expr1(sum, rest(s, n + m)), s);
                lemma_after_ends_sum(n + m, expr1(sum, rest(s, n + m)), s);
            }
        },
        Ok(Some((TokenSpec::Pow, n))) => {
            lemma_word_consumes(rest(s, n), TokenSpec::Pow, ErrorKind::ExpectedNumber);
            if let Ok((exponent, k)) = literal(rest(s, n)) {
                let raised = power(e, exponent);
                lemma_tail_extent(raised, rest(s, n + k));
                lemma_after_within(n + k, tail(raised, rest(s, n + k)), s);
                lemma_after_ends_sum(n + k, tail(raised, rest(s, n + k)), s);
            }
        },
        _ => {
            assert(rest(s, 0) =~= s);
        },
    }
}

/// Everything that follows an operand stays inside the text and ends a
/// sum.
pub proof fn lemma_tail_extent(e: ExpressionSpec, s: Seq<char>)
    ensures
        within(tail(e, s), s),
        ends_sum(tail(e, s), s),
    decreases s.len(), 1nat,
{
    lemma_term1_within(e, s);
    if let Ok((product, n)) = term1(e, s) {
        lemma_expr1_extent(product, rest(s, n));
        lemma_after_within(n, expr1(product, rest(s, n)), s);
        lemma_after_ends_sum(n, expr1(product, rest(s, n)), s);
    }
}

/// An expression stays inside the text and is read for as long as its sum
/// goes on.
pub proof fn lemma_expr_extent(s: Seq<char>)
    ensures
        within(expr(s), s),
        ends_sum(expr(s), s),
    decreases s.len(), 2nat,
{
    if starts_conditional(s) {
        lemma_conditional_extent(s);
    } else {
        lemma_primary_within(s);
        if let Ok((e, n)) = primary(s) {
            lemma_tail_extent(e, rest(s, n));
            lemma_after_within(n, tail(e, rest(s, n)), s);
            lemma_after_ends_sum(n, tail(e, rest(s, n)), s);
        }
    }
}

/// An expression stays inside the text.
pub proof fn lemma_expr_within(s: Seq<char>)
    ensures
        within(expr(s), s),
    decreases s.len(), 3nat,
{
    lemma_expr_extent(s);
}

/// What is read ahead behind an operand never ends before a `**`: so the
/// operand either stays alone, with nothing used up, or the factor is a
/// fault.
pub proof fn lemma_factor1_keeps_operand(e: ExpressionSpec, s: Seq<char>)
    ensures
        factor1(e, s) matches Ok(r) ==> r == (e, 0nat),
        within(factor1(e, s), s),
    decreases s.len(), 2nat,
{
    lemma_tail_extent(e, s);
    if let Ok((_, n)) = tail(e, s) {
        lemma_token_consumes(rest(s, n));
    }
}

/// An operand of a product is a conditional or its primary alone.
pub proof fn lemma_factor_is_primary(s: Seq<char>)
    ensures
        factor(s) is Ok ==> factor(s) == if starts_conditional(s) {
            conditional(s)
        } else {
            primary(s)
        },
        within(factor(s), s),
    decreases s.len(), 3nat,
{
    if starts_conditional(s) {
        lemma_conditional_extent(s);
    } else {
        lemma_primary_within(s);
        if let Ok((e, n)) = primary(s) {
            lemma_factor1_keeps_operand(e, rest(s, n));
            lemma_after_within(n, factor1(e, rest(s, n)), s);
        }
    }
}

/// A product stays inside the text.
pub proof fn lemma_term_within(s: Seq<char>)
    ensures
        within(term(s), s),
    decreases s.len(), 4nat,
{
    lemma_factor_is_primary(s);
    if let Ok((e, n)) = factor(s) {
        lemma_term1_within(e, rest(s, n));
        lemma_after_within(n, term1(e, rest(s, n)), s);
    }
}

} // verus!
