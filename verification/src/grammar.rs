//! The grammar of expressions, as functions on the text that remains.
//!
//! Every function takes the characters that are left of a line and gives the
//! tree it reads from their start together with the number of characters it
//! used up, or the fault that stops it. Positions play no part: the parser
//! derives them from the characters used up.
//!
//! From loosest to tightest: sums and differences ([`expr1`], folding to the
//! left), products and quotients ([`term1`], nesting to the right), and
//! primaries ([`primary`] and [`conditional`]). A `**` takes a literal
//! exponent and, met behind a sum, raises the whole sum built so far.

use vstd::prelude::*;
use crate::ast::{ConditionSpec, ExpressionSpec};
use crate::error::{unexpected, ErrorKind, Fault};
use crate::lexer::{lemma_token_consumes, token};
use crate::text::rest;
use crate::token::TokenSpec;

verus! {

/// The outcome of reading a `T`: the value and the number of characters used
/// up, or a fault.
pub type Parsed<T> = Result<(T, nat), Fault>;

/// The outcome that is the value `value` read from `n` characters.
pub open spec fn gives<T>(value: T, n: nat) -> Parsed<T> {
    Ok((value, n))
}

/// The outcome `r` of reading what stands `n` characters into a text, seen
/// from the start of that text.
pub open spec fn after<T>(n: nat, r: Parsed<T>) -> Parsed<T> {
    match r {
        Ok((value, m)) => Ok((value, n + m)),
        Err(f) => Err(f.shifted(n)),
    }
}

/// The token `want` at the start of `s`; any other token, or none, is the
/// fault `kind`.
#[verifier::opaque]
pub open spec fn keyword(s: Seq<char>, want: TokenSpec, kind: ErrorKind) -> Parsed<()> {
    match token(s) {
        Err(f) => Err(f),
        Ok(Some((t, n))) if t == want => Ok(((), n)),
        Ok(found) => Err(unexpected(kind, 0, found)),
    }
}

/// The comparator `<` at the start of `s`. One of the other comparators is
/// a fault of its own kind.
#[verifier::opaque]
pub open spec fn less_than(s: Seq<char>) -> Parsed<()> {
    match token(s) {
        Err(f) => Err(f),
        Ok(Some((TokenSpec::Lt, n))) => Ok(((), n)),
        Ok(Some((TokenSpec::Le, n))) => Err(
            unexpected(ErrorKind::UnsupportedComparator, 0, Some((TokenSpec::Le, n))),
        ),
        Ok(Some((TokenSpec::Eqeq, n))) => Err(
            unexpected(ErrorKind::UnsupportedComparator, 0, Some((TokenSpec::Eqeq, n))),
        ),
        Ok(Some((TokenSpec::Ge, n))) => Err(
            unexpected(ErrorKind::UnsupportedComparator, 0, Some((TokenSpec::Ge, n))),
        ),
        Ok(Some((TokenSpec::Gt, n))) => Err(
            unexpected(ErrorKind::UnsupportedComparator, 0, Some((TokenSpec::Gt, n))),
        ),
        Ok(found) => Err(unexpected(ErrorKind::ExpectedComparator, 0, found)),
    }
}

/// The literal number at the start of `s`, as the exponent of a power.
#[verifier::opaque]
pub open spec fn literal(s: Seq<char>) -> Parsed<ExpressionSpec> {
    match token(s) {
        Err(f) => Err(f),
        Ok(Some((TokenSpec::Num(value), n))) => Ok((ExpressionSpec::NumberLiteral(value), n)),
        Ok(found) => Err(unexpected(ErrorKind::ExpectedNumber, 0, found)),
    }
}

/// Whether `s` begins with the keyword `if`.
pub open spec fn starts_conditional(s: Seq<char>) -> bool {
    token(s) matches Ok(Some((TokenSpec::If, _)))
}

/// A keyword, a comparator or a literal takes up at least one character and
/// ends inside the text, and a fault lies inside the text.
pub proof fn lemma_word_consumes(s: Seq<char>, want: TokenSpec, kind: ErrorKind)
    ensures
        keyword(s, want, kind) matches Ok((_, n)) ==> 1 <= n <= s.len(),
        keyword(s, want, kind) matches Err(f) ==> f.at <= s.len(),
        less_than(s) matches Ok((_, n)) ==> 1 <= n <= s.len(),
        less_than(s) matches Err(f) ==> f.at <= s.len(),
        literal(s) matches Ok((_, n)) ==> 1 <= n <= s.len(),
        literal(s) matches Err(f) ==> f.at <= s.len(),
{
    reveal(keyword);
    reveal(less_than);
    reveal(literal);
    lemma_token_consumes(s);
}

/// A parenthesized expression, a variable or a number.
pub open spec fn primary(s: Seq<char>) -> Parsed<ExpressionSpec>
    decreases s.len(), 0nat,
{
    match token(s) {
        Err(f) => Err(f),
        Ok(Some((TokenSpec::Open, n))) => {
            proof {
                lemma_token_consumes(s);
            }
            match expr(rest(s, n)) {
                Err(f) => Err(f.shifted(n)),
                Ok((inner, m)) => match keyword(
                    rest(s, n + m),
                    TokenSpec::Close,
                    ErrorKind::ExpectedClose,
                ) {
                    Err(f) => Err(f.shifted(n + m)),
                    Ok((_, k)) => Ok((inner, n + m + k)),
                },
            }
        },
        Ok(Some((TokenSpec::Ide(name), n))) => Ok((ExpressionSpec::VariableReference(name), n)),
        Ok(Some((TokenSpec::Num(value), n))) => Ok((ExpressionSpec::NumberLiteral(value), n)),
        Ok(found) => Err(unexpected(ErrorKind::ExpectedOperand, 0, found)),
    }
}

/// The two sides of a condition: left `<` right.
pub open spec fn comparison(s: Seq<char>) -> Parsed<(ExpressionSpec, ExpressionSpec)>
    decreases s.len(), 3nat,
{
    match expr(s) {
        Err(f) => Err(f),
        Ok((left, n)) => match less_than(rest(s, n)) {
            Err(f) => Err(f.shifted(n)),
            Ok((_, k)) => match expr(rest(s, n + k)) {
                Err(f) => Err(f.shifted(n + k)),
                Ok((right, m)) => Ok(((left, right), n + k + m)),
            },
        },
    }
}

/// The two branches of a conditional: `then` first `else` second `fi`.
pub open spec fn branches(s: Seq<char>) -> Parsed<(ExpressionSpec, ExpressionSpec)>
    decreases s.len(), 0nat,
{
    match keyword(s, TokenSpec::Then, ErrorKind::ExpectedThen) {
        Err(f) => Err(f),
        Ok((_, n)) => {
            proof {
                lemma_word_consumes(s, TokenSpec::Then, ErrorKind::ExpectedThen);
            }
            match expr(rest(s, n)) {
                Err(f) => Err(f.shifted(n)),
                Ok((first, m)) => match keyword(
                    rest(s, n + m),
                    TokenSpec::Else,
                    ErrorKind::ExpectedElse,
                ) {
                    Err(f) => Err(f.shifted(n + m)),
                    Ok((_, k)) => match expr(rest(s, n + m + k)) {
                        Err(f) => Err(f.shifted(n + m + k)),
                        Ok((second, j)) => match keyword(
                            rest(s, n + m + k + j),
                            TokenSpec::Fi,
                            ErrorKind::ExpectedFi,
                        ) {
                            Err(f) => Err(f.shifted(n + m + k + j)),
                            Ok((_, i)) => Ok(((first, second), n + m + k + j + i)),
                        },
                    },
                },
            }
        },
    }
}

/// A conditional, `if` left `<` right `then` first `else` second `fi`, and
/// whatever sum or power continues it behind the `fi`.
pub open spec fn conditional(s: Seq<char>) -> Parsed<ExpressionSpec>
    decreases s.len(), 0nat,
{
    match keyword(s, TokenSpec::If, ErrorKind::ExpectedIf) {
        Err(f) => Err(f),
        Ok((_, n)) => {
            proof {
                lemma_word_consumes(s, TokenSpec::If, ErrorKind::ExpectedIf);
            }
            match comparison(rest(s, n)) {
                Err(f) => Err(f.shifted(n)),
                Ok(((left, right), m)) => match branches(rest(s, n + m)) {
                    Err(f) => Err(f.shifted(n + m)),
                    Ok(((first, second), k)) => after(
                        n + m + k,
                        expr1(choice(left, right, first, second), rest(s, n + m + k)),
                    ),
                },
            }
        },
    }
}

/// The tree of `if left < right then first else second fi`.
pub open spec fn choice(
    left: ExpressionSpec,
    right: ExpressionSpec,
    first: ExpressionSpec,
    second: ExpressionSpec,
) -> ExpressionSpec {
    ExpressionSpec::IfElse(
        Box::new(ConditionSpec::Lt(left, right)),
        Box::new(first),
        Box::new(second),
    )
}

/// What may follow the operand `e` of a product: `*` or `/` and the product
/// that follows it, or nothing.
pub open spec fn term1(e: ExpressionSpec, s: Seq<char>) -> Parsed<ExpressionSpec>
    decreases s.len(), 0nat,
{
    match token(s) {
        Err(f) => Err(f),
        Ok(Some((TokenSpec::Mult, n))) => {
            proof {
                lemma_token_consumes(s);
            }
            match term(rest(s, n)) {
                Err(f) => Err(f.shifted(n)),
                Ok((right, m)) => Ok((ExpressionSpec::Mult(Box::new(e), Box::new(right)), n + m)),
            }
        },
        Ok(Some((TokenSpec::Div, n))) => {
            proof {
                lemma_token_consumes(s);
            }
            match term(rest(s, n)) {
                Err(f) => Err(f.shifted(n)),
                Ok((right, m)) => Ok((ExpressionSpec::Div(Box::new(e), Box::new(right)), n + m)),
            }
        },
        Ok(_) => Ok((e, 0)),
    }
}

/// What may follow the sum `e` built so far: `+` or `-` and a product, or
/// `**` and a literal exponent, each as often as it comes.
pub open spec fn expr1(e: ExpressionSpec, s: Seq<char>) -> Parsed<ExpressionSpec>
    decreases s.len(), 0nat,
{
    match token(s) {
        Err(f) => Err(f),
        Ok(Some((TokenSpec::Add, n))) => {
            proof {
                lemma_token_consumes(s);
            }
            match term(rest(s, n)) {
                Err(f) => Err(f.shifted(n)),
                Ok((right, m)) => after(
                    n + m,
                    expr1(ExpressionSpec::Add(Box::new(e), Box::new(right)), rest(s, n + m)),
                ),
            }
        },
        Ok(Some((TokenSpec::Sub, n))) => {
            proof {
                lemma_token_consumes(s);
            }
            match term(rest(s, n)) {
                Err(f) => Err(f.shifted(n)),
                Ok((right, m)) => after(
                    n + m,
                    expr1(ExpressionSpec::Sub(Box::new(e), Box::new(right)), rest(s, n + m)),
                ),
            }
        },
        Ok(Some((TokenSpec::Pow, n))) => {
            proof {
                lemma_token_consumes(s);
            }
            match literal(rest(s, n)) {
                Err(f) => Err(f.shifted(n)),
                Ok((exponent, k)) => after(n + k, tail(power(e, exponent), rest(s, n + k))),
            }
        },
        Ok(_) => Ok((e, 0)),
    }
}

/// The tree of `base ** exponent`.
pub open spec fn power(base: ExpressionSpec, exponent: ExpressionSpec) -> ExpressionSpec {
    ExpressionSpec::Pow(Box::new(base), Box::new(exponent))
}

/// Everything that may follow the operand `e`: first the rest of its
/// product, then the rest of the sum.
pub open spec fn tail(e: ExpressionSpec, s: Seq<char>) -> Parsed<ExpressionSpec>
    decreases s.len(), 1nat,
{
    match term1(e, s) {
        Err(f) => Err(f),
        Ok((product, n)) => after(n, expr1(product, rest(s, n))),
    }
}

/// An expression: a conditional, or a primary and all that follows it.
pub open spec fn expr(s: Seq<char>) -> Parsed<ExpressionSpec>
    decreases s.len(), 2nat,
{
    if starts_conditional(s) {
        conditional(s)
    } else {
        match primary(s) {
            Err(f) => Err(f),
            Ok((e, n)) => after(n, tail(e, rest(s, n))),
        }
    }
}

/// What may follow the operand `e` where a factor is read: everything behind
/// `e` is read ahead, and a fault there is a fault of the factor. Only where
/// a `**` and its exponent come behind all of that do they join the factor,
/// around everything read ahead; in every other case the factor is `e`
/// alone, and nothing of what was read ahead counts as used up.
pub open spec fn factor1(e: ExpressionSpec, s: Seq<char>) -> Parsed<ExpressionSpec>
    decreases s.len(), 2nat,
{
    match tail(e, s) {
        Err(f) => Err(f),
        Ok((ahead, n)) => match token(rest(s, n)) {
            Err(f) => Err(f.shifted(n)),
            Ok(Some((TokenSpec::Pow, k))) => match literal(rest(s, n + k)) {
                Err(f) => Err(f.shifted(n + k)),
                Ok((exponent, j)) => Ok((power(ahead, exponent), n + k + j)),
            },
            Ok(_) => Ok((e, 0)),
        },
    }
}

/// An operand of a product: a conditional, or a primary and what [`factor1`]
/// makes of the text behind it.
pub open spec fn factor(s: Seq<char>) -> Parsed<ExpressionSpec>
    decreases s.len(), 3nat,
{
    if starts_conditional(s) {
        conditional(s)
    } else {
        match primary(s) {
            Err(f) => Err(f),
            Ok((e, n)) => after(n, factor1(e, rest(s, n))),
        }
    }
}

/// A product: a factor and what may follow it.
pub open spec fn term(s: Seq<char>) -> Parsed<ExpressionSpec>
    decreases s.len(), 4nat,
{
    match factor(s) {
        Err(f) => Err(f),
        Ok((e, n)) => after(n, term1(e, rest(s, n))),
    }
}

} // verus!
