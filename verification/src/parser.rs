//! The recursive-descent parser for expressions.
//!
//! Each function reads from the start of the text that remains and returns
//! the tree, the text behind it and the position there. The first fault
//! ends the parse: nothing is retried.

use vstd::prelude::*;
use crate::ast::{Condition, ConditionSpec, Expression, ExpressionSpec};
use crate::error::{ErrorKind, SyntaxError};
use crate::grammar::{
    after, branches, choice, comparison, conditional, expr, expr1, factor, factor1, keyword,
    lemma_word_consumes, less_than, literal, power, primary, starts_conditional, tail, term, term1,
    Parsed,
};
use crate::lexer::{lemma_token_consumes, next_token};
use crate::position::Position;
use crate::text::lemma_rest_of_rest;
use crate::token::{Token, TokenSpec};

verus! {

/// Whether the outcome `r` of a parse of `input` at `pos` is the outcome `m`
/// that the grammar gives: the same tree, the text behind it, and the
/// position moved by the characters used up; or the same fault, inside the
/// text and placed from `pos`.
pub open spec fn parsed_as<T: View>(
    r: Result<(T, &str, Position), SyntaxError>,
    m: Parsed<T::V>,
    input: Seq<char>,
    pos: Position,
) -> bool {
    match m {
        Ok((value, n)) => r matches Ok((x, rest, p)) && x@ == value && n <= input.len() && rest@
            == input.skip(n as int) && p == pos.advance(n),
        Err(f) => r matches Err(e) && f.at <= input.len() && e@ == f.located(pos),
    }
}

/// The number of characters between the start of `input` and the start of
/// `rest`, a text that `input` ends with.
pub open spec fn used(input: &str, rest: &str) -> nat {
    (input@.len() - rest@.len()) as nat
}

/// An outcome of parsing the text `n` characters into `input` is, seen from
/// the start of `input`, the same outcome `n` characters further on.
pub proof fn lemma_parsed_after<T: View>(
    r: Result<(T, &str, Position), SyntaxError>,
    m: Parsed<T::V>,
    input: Seq<char>,
    pos: Position,
    n: nat,
)
    requires
        pos.fits(input.len()),
        n <= input.len(),
        parsed_as(r, m, input.skip(n as int), pos.advance(n)),
    ensures
        parsed_as(r, after(n, m), input, pos),
{
    if let Ok((_, k)) = m {
        lemma_rest_of_rest(input, n, k);
    }
}

/// The token of a tokenizer step, without the text and the position.
pub fn seen(found: Option<(Token, &str, Position)>) -> (r: Option<Token>)
    ensures
        r == match found {
            Some((t, _, _)) => Some(t),
            None => None::<Token>,
        },
{
    match found {
        Some((t, _, _)) => Some(t),
        None => None,
    }
}

/// Whether the next token of `input` is the keyword `if`.
fn at_conditional(input: &str, pos: Position) -> (b: bool)
    requires
        pos.fits(input@.len()),
    ensures
        b == starts_conditional(input@),
{
    match next_token(input, pos) {
        Ok(Some((Token::If, _, _))) => true,
        _ => false,
    }
}

/// Reads the token `want`; anything else is the error `kind`.
pub fn expect<'a>(input: &'a str, pos: Position, want: Token, kind: ErrorKind) -> (r: Result<
    ((), &'a str, Position),
    SyntaxError,
>)
    requires
        pos.fits(input@.len()),
    ensures
        parsed_as(r, keyword(input@, want@, kind), input@, pos),
{
    proof {
        reveal(keyword);
        lemma_token_consumes(input@);
    }
    match next_token(input, pos) {
        Err(e) => Err(e),
        Ok(Some((t, rest, p))) => {
            if t.same(&want) {
                Ok(((), rest, p))
            } else {
                Err(SyntaxError { kind, pos, found: Some(t) })
            }
        },
        Ok(None) => Err(SyntaxError { kind, pos, found: None }),
    }
}

/// Reads the comparator `<`.
pub fn parse_less_than<'a>(input: &'a str, pos: Position) -> (r: Result<
    ((), &'a str, Position),
    SyntaxError,
>)
    requires
        pos.fits(input@.len()),
    ensures
        parsed_as(r, less_than(input@), input@, pos),
{
    proof {
        reveal(less_than);
        lemma_token_consumes(input@);
    }
    match next_token(input, pos) {
        Err(e) => Err(e),
        Ok(Some((Token::Lt, rest, p))) => Ok(((), rest, p)),
        Ok(Some((Token::Le, _, _))) => Err(
            SyntaxError { kind: ErrorKind::UnsupportedComparator, pos, found: Some(Token::Le) },
        ),
        Ok(Some((Token::Eqeq, _, _))) => Err(
            SyntaxError { kind: ErrorKind::UnsupportedComparator, pos, found: Some(Token::Eqeq) },
        ),
        Ok(Some((Token::Ge, _, _))) => Err(
            SyntaxError { kind: ErrorKind::UnsupportedComparator, pos, found: Some(Token::Ge) },
        ),
        Ok(Some((Token::Gt, _, _))) => Err(
            SyntaxError { kind: ErrorKind::UnsupportedComparator, pos, found: Some(Token::Gt) },
        ),
        Ok(found) => Err(
            SyntaxError { kind: ErrorKind::ExpectedComparator, pos, found: seen(found) },
        ),
    }
}

/// Reads the literal number that is the exponent of a power.
pub fn parse_literal<'a>(input: &'a str, pos: Position) -> (r: Result<
    (Expression, &'a str, Position),
    SyntaxError,
>)
    requires
        pos.fits(input@.len()),
    ensures
        parsed_as(r, literal(input@), input@, pos),
{
    proof {
        reveal(literal);
        lemma_token_consumes(input@);
    }
    match next_token(input, pos) {
        Err(e) => Err(e),
        Ok(Some((Token::Num(value), rest, p))) => Ok((Expression::NumberLiteral(value), rest, p)),
        Ok(found) => Err(SyntaxError { kind: ErrorKind::ExpectedNumber, pos, found: seen(found) }),
    }
}

/// Reads a parenthesized expression, a variable or a number.
pub fn parse_primary<'a>(input: &'a str, pos: Position) -> (r: Result<
    (Expression, &'a str, Position),
    SyntaxError,
>)
    requires
        pos.fits(input@.len()),
    ensures
        parsed_as(r, primary(input@), input@, pos),
    decreases input@.len(), 0nat,
{
    proof {
        lemma_token_consumes(input@);
    }
    match next_token(input, pos) {
        Err(e) => Err(e),
        Ok(Some((Token::Open, s1, p1))) => {
            let inner = parse_expr(s1, p1);
            proof {
                lemma_parsed_after(inner, expr(s1@), input@, pos, used(input, s1));
            }
            match inner {
                Err(e) => Err(e),
                Ok((e, s2, p2)) => {
                    let close = expect(s2, p2, Token::Close, ErrorKind::ExpectedClose);
                    proof {
                        lemma_parsed_after(
                            close,
                            keyword(s2@, TokenSpec::Close, ErrorKind::ExpectedClose),
                            input@,
                            pos,
                            used(input, s2),
                        );
                    }
                    match close {
                        Err(e) => Err(e),
                        Ok((_, s3, p3)) => Ok((e, s3, p3)),
                    }
                },
            }
        },
        Ok(Some((Token::Ide(name), s1, p1))) => Ok((Expression::VariableReference(name), s1, p1)),
        Ok(Some((Token::Num(value), s1, p1))) => Ok((Expression::NumberLiteral(value), s1, p1)),
        Ok(found) => Err(SyntaxError { kind: ErrorKind::ExpectedOperand, pos, found: seen(found) }),
    }
}

/// Reads the two sides of a condition.
pub fn parse_comparison<'a>(input: &'a str, pos: Position) -> (r: Result<
    ((Expression, Expression), &'a str, Position),
    SyntaxError,
>)
    requires
        pos.fits(input@.len()),
    ensures
        parsed_as(r, comparison(input@), input@, pos),
    decreases input@.len(), 3nat,
{
    match parse_expr(input, pos) {
        Err(e) => Err(e),
        Ok((left, s1, p1)) => {
            let sign = parse_less_than(s1, p1);
            proof {
                lemma_parsed_after(sign, less_than(s1@), input@, pos, used(input, s1));
            }
            match sign {
                Err(e) => Err(e),
                Ok((_, s2, p2)) => {
                    let second = parse_expr(s2, p2);
                    proof {
                        lemma_parsed_after(second, expr(s2@), input@, pos, used(input, s2));
                    }
                    match second {
                        Err(e) => Err(e),
                        Ok((right, s3, p3)) => Ok(((left, right), s3, p3)),
                    }
                },
            }
        },
    }
}

/// Reads the two branches of a conditional, from `then` to `fi`.
pub fn parse_branches<'a>(input: &'a str, pos: Position) -> (r: Result<
    ((Expression, Expression), &'a str, Position),
    SyntaxError,
>)
    requires
        pos.fits(input@.len()),
    ensures
        parsed_as(r, branches(input@), input@, pos),
    decreases input@.len(), 0nat,
{
    proof {
        lemma_word_consumes(input@, TokenSpec::Then, ErrorKind::ExpectedThen);
    }
    let (_, s1, p1) = match expect(input, pos, Token::Then, ErrorKind::ExpectedThen) {
        Err(e) => {
            return Err(e);
        },
        Ok(step) => step,
    };
    let one = parse_expr(s1, p1);
    proof {
        lemma_parsed_after(one, expr(s1@), input@, pos, used(input, s1));
    }
    let (first, s2, p2) = match one {
        Err(e) => {
            return Err(e);
        },
        Ok(step) => step,
    };
    let otherwise = expect(s2, p2, Token::Else, ErrorKind::ExpectedElse);
    proof {
        lemma_parsed_after(
            otherwise,
            keyword(s2@, TokenSpec::Else, ErrorKind::ExpectedElse),
            input@,
            pos,
            used(input, s2),
        );
    }
    let (_, s3, p3) = match otherwise {
        Err(e) => {
            return Err(e);
        },
        Ok(step) => step,
    };
    let two = parse_expr(s3, p3);
    proof {
        lemma_parsed_after(two, expr(s3@), input@, pos, used(input, s3));
    }
    let (second, s4, p4) = match two {
        Err(e) => {
            return Err(e);
        },
        Ok(step) => step,
    };
    let end = expect(s4, p4, Token::Fi, ErrorKind::ExpectedFi);
    proof {
        lemma_parsed_after(
            end,
            keyword(s4@, TokenSpec::Fi, ErrorKind::ExpectedFi),
            input@,
            pos,
            used(input, s4),
        );
    }
    match end {
        Err(e) => Err(e),
        Ok((_, s5, p5)) => Ok(((first, second), s5, p5)),
    }
}

/// Reads a conditional and what continues it behind its `fi`.
pub fn parse_if_then_else<'a>(input: &'a str, pos: Position) -> (r: Result<
    (Expression, &'a str, Position),
    SyntaxError,
>)
    requires
        pos.fits(input@.len()),
    ensures
        parsed_as(r, conditional(input@), input@, pos),
    decreases input@.len(), 0nat,
{
    proof {
        lemma_word_consumes(input@, TokenSpec::If, ErrorKind::ExpectedIf);
    }
    let (_, s1, p1) = match expect(input, pos, Token::If, ErrorKind::ExpectedIf) {
        Err(e) => {
            return Err(e);
        },
        Ok(step) => step,
    };
    let test = parse_comparison(s1, p1);
    proof {
        lemma_parsed_after(test, comparison(s1@), input@, pos, used(input, s1));
    }
    let ((left, right), s2, p2) = match test {
        Err(e) => {
            return Err(e);
        },
        Ok(step) => step,
    };
    let both = parse_branches(s2, p2);
    proof {
        lemma_parsed_after(both, branches(s2@), input@, pos, used(input, s2));
    }
    let ((first, second), s3, p3) = match both {
        Err(e) => {
            return Err(e);
        },
        Ok(step) => step,
    };
    let ghost chosen = choice(left@, right@, first@, second@);
    let condition = Condition::Lt(left, right);
    assert(condition@ == ConditionSpec::Lt(left@, right@));
    let whole = Expression::IfElse(Box::new(condition), Box::new(first), Box::new(second));
    assert(whole@ == chosen);
    let r = parse_expr1(whole, s3, p3);
    proof {
        lemma_parsed_after(r, expr1(chosen, s3@), input@, pos, used(input, s3));
    }
    r
}

/// Reads what may follow the operand `expr` of a product.
pub fn parse_term1<'a>(expr: Expression, input: &'a str, pos: Position) -> (r: Result<
    (Expression, &'a str, Position),
    SyntaxError,
>)
    requires
        pos.fits(input@.len()),
    ensures
        parsed_as(r, term1(expr@, input@), input@, pos),
    decreases input@.len(), 0nat,
{
    proof {
        lemma_token_consumes(input@);
    }
    match next_token(input, pos) {
        Err(e) => Err(e),
        Ok(Some((Token::Mult, s1, p1))) => {
            let operand = parse_term(s1, p1);
            proof {
                lemma_parsed_after(operand, term(s1@), input@, pos, used(input, s1));
            }
            match operand {
                Err(e) => Err(e),
                Ok((right, s2, p2)) => Ok(
                    (Expression::Mult(Box::new(expr), Box::new(right)), s2, p2),
                ),
            }
        },
        Ok(Some((Token::Div, s1, p1))) => {
            let operand = parse_term(s1, p1);
            proof {
                lemma_parsed_after(operand, term(s1@), input@, pos, used(input, s1));
            }
            match operand {
                Err(e) => Err(e),
                Ok((right, s2, p2)) => Ok(
                    (Expression::Div(Box::new(expr), Box::new(right)), s2, p2),
                ),
            }
        },
        Ok(_) => {
            assert(input@.skip(0) =~= input@);
            Ok((expr, input, pos))
        },
    }
}

/// Reads what may follow the sum `expr` built so far.
#[verifier::rlimit(30)]
pub fn parse_expr1<'a>(expr: Expression, input: &'a str, pos: Position) -> (r: Result<
    (Expression, &'a str, Position),
    SyntaxError,
>)
    requires
        pos.fits(input@.len()),
    ensures
        parsed_as(r, expr1(expr@, input@), input@, pos),
    decreases input@.len(), 0nat,
{
    proof {
        lemma_token_consumes(input@);
    }
    match next_token(input, pos) {
        Err(e) => Err(e),
        Ok(Some((Token::Add, s1, p1))) => {
            let operand = parse_term(s1, p1);
            proof {
                lemma_parsed_after(operand, term(s1@), input@, pos, used(input, s1));
            }
            match operand {
                Err(e) => Err(e),
                Ok((right, s2, p2)) => {
                    let ghost sum = ExpressionSpec::Add(Box::new(expr@), Box::new(right@));
                    let r = parse_expr1(Expression::Add(Box::new(expr), Box::new(right)), s2, p2);
                    proof {
                        lemma_parsed_after(r, expr1(sum, s2@), input@, pos, used(input, s2));
                    }
                    r
                },
            }
        },
        Ok(Some((Token::Sub, s1, p1))) => {
            let operand = parse_term(s1, p1);
            proof {
                lemma_parsed_after(operand, term(s1@), input@, pos, used(input, s1));
            }
            match operand {
                Err(e) => Err(e),
                Ok((right, s2, p2)) => {
                    let ghost sum = ExpressionSpec::Sub(Box::new(expr@), Box::new(right@));
                    let r = parse_expr1(Expression::Sub(Box::new(expr), Box::new(right)), s2, p2);
                    proof {
                        lemma_parsed_after(r, expr1(sum, s2@), input@, pos, used(input, s2));
                    }
                    r
                },
            }
        },
        Ok(Some((Token::Pow, s1, p1))) => {
            let number = parse_literal(s1, p1);
            proof {
                lemma_parsed_after(number, literal(s1@), input@, pos, used(input, s1));
            }
            match number {
                Err(e) => Err(e),
                Ok((exponent, s2, p2)) => {
                    let ghost raised = power(expr@, exponent@);
                    let r = parse_tail(
                        Expression::Pow(Box::new(expr), Box::new(exponent)),
                        s2,
                        p2,
                    );
                    proof {
                        lemma_parsed_after(r, tail(raised, s2@), input@, pos, used(input, s2));
                    }
                    r
                },
            }
        },
        Ok(_) => {
            assert(input@.skip(0) =~= input@);
            Ok((expr, input, pos))
        },
    }
}

/// Reads everything that may follow the operand `expr`: the rest of its
/// product, then the rest of the sum.
pub fn parse_tail<'a>(expr: Expression, input: &'a str, pos: Position) -> (r: Result<
    (Expression, &'a str, Position),
    SyntaxError,
>)
    requires
        pos.fits(input@.len()),
    ensures
        parsed_as(r, tail(expr@, input@), input@, pos),
    decreases input@.len(), 1nat,
{
    match parse_term1(expr, input, pos) {
        Err(e) => Err(e),
        Ok((product, s1, p1)) => {
            let r = parse_expr1(product, s1, p1);
            proof {
                lemma_parsed_after(r, expr1(product@, s1@), input@, pos, used(input, s1));
            }
            r
        },
    }
}

/// Reads an expression.
pub fn parse_expr<'a>(input: &'a str, pos: Position) -> (r: Result<
    (Expression, &'a str, Position),
    SyntaxError,
>)
    requires
        pos.fits(input@.len()),
    ensures
        parsed_as(r, expr(input@), input@, pos),
    decreases input@.len(), 2nat,
{
    if at_conditional(input, pos) {
        parse_if_then_else(input, pos)
    } else {
        match parse_primary(input, pos) {
            Err(e) => Err(e),
            Ok((e, s1, p1)) => {
                let r = parse_tail(e, s1, p1);
                proof {
                    lemma_parsed_after(r, tail(e@, s1@), input@, pos, used(input, s1));
                }
                r
            },
        }
    }
}

/// Reads what may follow the operand `expr` of a factor: all that follows
/// is read ahead, and kept only where a power closes it. What was read ahead
/// is read again by the caller, so the work doubles with every operator
/// that follows the operand.
#[verifier::rlimit(30)]
pub fn parse_factor1<'a>(expr: Expression, input: &'a str, pos: Position) -> (r: Result<
    (Expression, &'a str, Position),
    SyntaxError,
>)
    requires
        pos.fits(input@.len()),
    ensures
        parsed_as(r, factor1(expr@, input@), input@, pos),
    decreases input@.len(), 2nat,
{
    match parse_tail(expr.clone(), input, pos) {
        Err(e) => Err(e),
        Ok((ahead, s1, p1)) => {
            proof {
                lemma_token_consumes(s1@);
            }
            match next_token(s1, p1) {
                Err(e) => Err(e),
                Ok(Some((Token::Pow, s2, p2))) => {
                    proof {
                        lemma_rest_of_rest(input@, used(input, s1), used(s1, s2));
                    }
                    let number = parse_literal(s2, p2);
                    proof {
                        lemma_parsed_after(number, literal(s2@), input@, pos, used(input, s2));
                    }
                    match number {
                        Err(e) => Err(e),
                        Ok((exponent, s3, p3)) => Ok(
                            (Expression::Pow(Box::new(ahead), Box::new(exponent)), s3, p3),
                        ),
                    }
                },
                Ok(_) => {
                    assert(input@.skip(0) =~= input@);
                    Ok((expr, input, pos))
                },
            }
        },
    }
}

/// Reads an operand of a product.
pub fn parse_factor<'a>(input: &'a str, pos: Position) -> (r: Result<
    (Expression, &'a str, Position),
    SyntaxError,
>)
    requires
        pos.fits(input@.len()),
    ensures
        parsed_as(r, factor(input@), input@, pos),
    decreases input@.len(), 3nat,
{
    if at_conditional(input, pos) {
        parse_if_then_else(input, pos)
    } else {
        match parse_primary(input, pos) {
            Err(e) => Err(e),
            Ok((e, s1, p1)) => {
                let r = parse_factor1(e, s1, p1);
                proof {
                    lemma_parsed_after(r, factor1(e@, s1@), input@, pos, used(input, s1));
                }
                r
            },
        }
    }
}

/// Reads a product.
pub fn parse_term<'a>(input: &'a str, pos: Position) -> (r: Result<
    (Expression, &'a str, Position),
    SyntaxError,
>)
    requires
        pos.fits(input@.len()),
    ensures
        parsed_as(r, term(input@), input@, pos),
    decreases input@.len(), 4nat,
{
    match parse_factor(input, pos) {
        Err(e) => Err(e),
        Ok((e, s1, p1)) => {
            let r = parse_term1(e, s1, p1);
            proof {
                lemma_parsed_after(r, term1(e@, s1@), input@, pos, used(input, s1));
            }
            r
        },
    }
}

} // verus!
