//! Reading back what the printer writes.
//!
//! The text of a tree that the parser can produce is read as that very
//! tree, to its last character; and what the parser produces is such a
//! tree. So parsing, writing out and parsing again gives the first tree.

use vstd::prelude::*;
use crate::ast::{ConditionSpec, ExpressionSpec, StatementSpec};
use crate::error::ErrorKind;
use crate::extent::lemma_factor_is_primary;
use crate::grammar::{
    branches, choice, comparison, conditional, expr, expr1, factor, gives, keyword,
    lemma_word_consumes, less_than, literal, power, primary, starts_conditional, tail, term, term1,
    Parsed,
};
use crate::lexer::{lemma_token_consumes, token};
use crate::printer::{closing, inner, rendered, rendered_statement};
use crate::reading::{
    lemma_reads_keyword, lemma_reads_name, lemma_reads_number, lemma_reads_operator,
    lemma_reads_power, lemma_reads_punctuation, lemma_rest_of_sum, lemma_token_payload, reads,
    valid_name,
};
use crate::statement::{assign, lemma_no_token_in_nothing, statement};
use crate::steps::{
    lemma_step_add, lemma_step_branches, lemma_step_comparison, lemma_step_conditional,
    lemma_step_div, lemma_step_expr, lemma_step_group, lemma_step_mult, lemma_step_name,
    lemma_step_number, lemma_step_operand, lemma_step_pow, lemma_step_sub, lemma_stops, neutral,
};
use crate::text::{numeral_of, rest};
use crate::token::TokenSpec;

verus! {

/// Whether `e` is a tree that the parser can produce: its numbers are not
/// negative and fit the number type, its names are names, its exponents are
/// literal numbers, and its conditions compare by `<`.
pub open spec fn printable(e: ExpressionSpec) -> bool
    decreases e,
{
    match e {
        ExpressionSpec::NumberLiteral(n) => 0 <= n <= i32::MAX,
        ExpressionSpec::VariableReference(x) => valid_name(x),
        ExpressionSpec::Add(l, r) => printable(*l) && printable(*r),
        ExpressionSpec::Sub(l, r) => printable(*l) && printable(*r),
        ExpressionSpec::Mult(l, r) => printable(*l) && printable(*r),
        ExpressionSpec::Div(l, r) => printable(*l) && printable(*r),
        ExpressionSpec::Pow(b, x) => printable(*b) && (*x matches ExpressionSpec::NumberLiteral(k)
            && 0 <= k <= i32::MAX),
        ExpressionSpec::IfElse(c, a, b) => (*c matches ConditionSpec::Lt(l, r) && printable(l)
            && printable(r)) && printable(*a) && printable(*b),
    }
}

/// Whether the text of `e` is read as the primary `e` whatever follows it.
#[verifier::opaque]
pub open spec fn reads_back(e: ExpressionSpec) -> bool {
    forall|w: Seq<char>| #[trigger]
        primary(rendered(e) + w) == gives(e, rendered(e).len())
}

/// The text of a tree starts with an opening parenthesis.
pub proof fn lemma_opens(e: ExpressionSpec, w: Seq<char>)
    ensures
        rendered(e).len() >= 2,
        rendered(e)[0] == '(',
        (rendered(e) + w)[0] == '(',
        token(rendered(e) + w) == reads(TokenSpec::Open, 1),
        !starts_conditional(rendered(e) + w),
{
    let s = rendered(e) + w;
    assert(s =~= seq!['('] + (inner(e) + closing(e) + w));
    lemma_reads_punctuation(inner(e) + closing(e) + w);
}

/// What is left behind `n` characters, and behind `d` more of that, is
/// what is left behind `n + d`.
pub proof fn lemma_rest_chain(s: Seq<char>, n: nat, x: Seq<char>, d: nat, y: Seq<char>)
    requires
        n <= s.len(),
        rest(s, n) == x,
        d <= x.len(),
        rest(x, d) == y,
    ensures
        n + d <= s.len(),
        rest(s, n + d) == y,
{
    assert(s.skip(n as int).skip(d as int) =~= s.skip((n + d) as int));
}

/// The text of a tree that is read back as a primary is read back as an
/// expression, as a factor and as a product wherever no operator follows.
pub proof fn lemma_operand_reads(e: ExpressionSpec, z: Seq<char>)
    requires
        reads_back(e),
        neutral(z),
    ensures
        expr(rendered(e) + z) == gives(e, rendered(e).len()),
        factor(rendered(e) + z) == gives(e, rendered(e).len()),
        term(rendered(e) + z) == gives(e, rendered(e).len()),
        rest(rendered(e) + z, rendered(e).len()) == z,
{
    let s = rendered(e) + z;
    lemma_opens(e, z);
    assert(primary(s) == gives(e, rendered(e).len())) by {
        reveal(reads_back);
    }
    lemma_rest_of_sum(rendered(e), z);
    lemma_step_operand(s, e, rendered(e).len());
}

/// The text of two operands around the sign of an operation.
pub open spec fn operation_text(l: ExpressionSpec, sign: char, r: ExpressionSpec, z: Seq<char>) -> Seq<
    char,
> {
    rendered(l) + (seq![sign] + (rendered(r) + z))
}

/// Of the text of two operands around a sign, the first is read as a
/// primary and the second, behind the sign, as a product.
pub proof fn lemma_operands_read(l: ExpressionSpec, sign: char, r: ExpressionSpec, z: Seq<char>)
    requires
        reads_back(l),
        reads_back(r),
        neutral(z),
    ensures
        !starts_conditional(operation_text(l, sign, r, z)),
        primary(operation_text(l, sign, r, z)) == gives(l, rendered(l).len()),
        rest(operation_text(l, sign, r, z), rendered(l).len()) == seq![sign] + (rendered(r) + z),
        term(rest(seq![sign] + (rendered(r) + z), 1)) == gives(r, rendered(r).len()),
        neutral(rest(seq![sign] + (rendered(r) + z), 1 + rendered(r).len())),
        (rendered(r) + z).len() > 0,
        (rendered(r) + z)[0] == '(',
{
    let w2 = rendered(r) + z;
    let w1 = seq![sign] + w2;
    let s = rendered(l) + w1;
    lemma_opens(l, w1);
    lemma_opens(r, z);
    assert(primary(s) == gives(l, rendered(l).len())) by {
        reveal(reads_back);
    }
    lemma_rest_of_sum(rendered(l), w1);
    lemma_rest_of_sum(seq![sign], w2);
    lemma_operand_reads(r, z);
    lemma_rest_chain(w1, 1, w2, rendered(r).len(), z);
}

/// Two texts with `+` between them are read as the sum of their trees.
pub proof fn lemma_add_reads(l: ExpressionSpec, r: ExpressionSpec, z: Seq<char>)
    requires
        reads_back(l),
        reads_back(r),
        neutral(z),
    ensures
        expr(operation_text(l, '+', r, z)) == gives(
            ExpressionSpec::Add(Box::new(l), Box::new(r)),
            rendered(l).len() + 1 + rendered(r).len(),
        ),
{
    let w1 = seq!['+'] + (rendered(r) + z);
    lemma_operands_read(l, '+', r, z);
    lemma_reads_punctuation(rendered(r) + z);
    lemma_step_add(l, w1, r, rendered(r).len());
    lemma_step_expr(
        operation_text(l, '+', r, z),
        l,
        rendered(l).len(),
        ExpressionSpec::Add(Box::new(l), Box::new(r)),
        1 + rendered(r).len(),
    );
}

/// Two texts with `-` between them are read as the difference of their
/// trees.
pub proof fn lemma_sub_reads(l: ExpressionSpec, r: ExpressionSpec, z: Seq<char>)
    requires
        reads_back(l),
        reads_back(r),
        neutral(z),
    ensures
        expr(operation_text(l, '-', r, z)) == gives(
            ExpressionSpec::Sub(Box::new(l), Box::new(r)),
            rendered(l).len() + 1 + rendered(r).len(),
        ),
{
    let w1 = seq!['-'] + (rendered(r) + z);
    lemma_operands_read(l, '-', r, z);
    lemma_reads_punctuation(rendered(r) + z);
    lemma_step_sub(l, w1, r, rendered(r).len());
    lemma_step_expr(
        operation_text(l, '-', r, z),
        l,
        rendered(l).len(),
        ExpressionSpec::Sub(Box::new(l), Box::new(r)),
        1 + rendered(r).len(),
    );
}

/// Two texts with `*` between them are read as the product of their
/// trees.
pub proof fn lemma_mult_reads(l: ExpressionSpec, r: ExpressionSpec, z: Seq<char>)
    requires
        reads_back(l),
        reads_back(r),
        neutral(z),
    ensures
        expr(operation_text(l, '*', r, z)) == gives(
            ExpressionSpec::Mult(Box::new(l), Box::new(r)),
            rendered(l).len() + 1 + rendered(r).len(),
        ),
{
    let w1 = seq!['*'] + (rendered(r) + z);
    lemma_operands_read(l, '*', r, z);
    lemma_reads_operator(rendered(r) + z);
    lemma_step_mult(l, w1, r, rendered(r).len());
    lemma_step_expr(
        operation_text(l, '*', r, z),
        l,
        rendered(l).len(),
        ExpressionSpec::Mult(Box::new(l), Box::new(r)),
        1 + rendered(r).len(),
    );
}

/// Two texts with `/` between them are read as the quotient of their
/// trees.
pub proof fn lemma_div_reads(l: ExpressionSpec, r: ExpressionSpec, z: Seq<char>)
    requires
        reads_back(l),
        reads_back(r),
        neutral(z),
    ensures
        expr(operation_text(l, '/', r, z)) == gives(
            ExpressionSpec::Div(Box::new(l), Box::new(r)),
            rendered(l).len() + 1 + rendered(r).len(),
        ),
{
    let w1 = seq!['/'] + (rendered(r) + z);
    lemma_operands_read(l, '/', r, z);
    lemma_reads_punctuation(rendered(r) + z);
    lemma_step_div(l, w1, r, rendered(r).len());
    lemma_step_expr(
        operation_text(l, '/', r, z),
        l,
        rendered(l).len(),
        ExpressionSpec::Div(Box::new(l), Box::new(r)),
        1 + rendered(r).len(),
    );
}

/// The text of a base, `**`, a numeral and a closing parenthesis.
pub open spec fn power_text(b: ExpressionSpec, k: nat, w: Seq<char>) -> Seq<char> {
    rendered(b) + (seq!['*', '*'] + (numeral_of(k) + (seq![')'] + w)))
}

/// A text, `**` and a numeral are read as the power of the tree.
pub proof fn lemma_power_reads(b: ExpressionSpec, k: nat, w: Seq<char>)
    requires
        reads_back(b),
        k <= i32::MAX,
    ensures
        expr(power_text(b, k, w)) == gives(
            power(b, ExpressionSpec::NumberLiteral(k as int)),
            rendered(b).len() + 2 + numeral_of(k).len(),
        ),
{
    let exponent = ExpressionSpec::NumberLiteral(k as int);
    let z = seq![')'] + w;
    let w2 = numeral_of(k) + z;
    let w1 = seq!['*', '*'] + w2;
    let s = rendered(b) + w1;
    let nk = numeral_of(k).len();
    lemma_opens(b, w1);
    assert(primary(s) == gives(b, rendered(b).len())) by {
        reveal(reads_back);
    }
    lemma_rest_of_sum(rendered(b), w1);
    lemma_reads_power(w2);
    lemma_rest_of_sum(seq!['*', '*'], w2);
    lemma_reads_number(k, z);
    lemma_step_number(w2, k as int, nk);
    lemma_rest_of_sum(numeral_of(k), z);
    lemma_rest_chain(w1, 2, w2, nk, z);
    lemma_reads_punctuation(w);
    lemma_step_pow(b, w1, exponent, nk);
    lemma_step_expr(s, b, rendered(b).len(), power(b, exponent), 2 + nk);
}

/// The lengths of the keywords with their blanks.
pub proof fn lemma_keyword_lengths()
    ensures
        "if "@.len() == 3,
        "then "@.len() == 5,
        "else "@.len() == 5,
        "fi "@.len() == 3,
        "fi "@ == seq!['f', 'i'] + seq![' '],
        "fi"@ == seq!['f', 'i'],
        "<"@ == seq!['<'],
{
    reveal_strlit("if ");
    reveal_strlit("then ");
    reveal_strlit("else ");
    reveal_strlit("fi ");
    reveal_strlit("fi");
    reveal_strlit("<");
    assert("fi "@ =~= seq!['f', 'i'] + seq![' ']);
    assert("fi"@ =~= seq!['f', 'i']);
    assert("<"@ =~= seq!['<']);
}

/// A keyword in front of a text is read as that keyword.
pub proof fn lemma_keyword_reads(w: Seq<char>)
    ensures
        keyword("if "@ + w, TokenSpec::If, ErrorKind::ExpectedIf) == gives((), 3),
        keyword("then "@ + w, TokenSpec::Then, ErrorKind::ExpectedThen) == gives((), 5),
        keyword("else "@ + w, TokenSpec::Else, ErrorKind::ExpectedElse) == gives((), 5),
        keyword("fi "@ + w, TokenSpec::Fi, ErrorKind::ExpectedFi) == gives((), 2),
        rest("if "@ + w, 3) == w,
        rest("then "@ + w, 5) == w,
        rest("else "@ + w, 5) == w,
        rest("fi "@ + w, 2) == seq![' '] + w,
        neutral("then "@ + w),
        neutral("else "@ + w),
        neutral("fi "@ + w),
        starts_conditional("if "@ + w),
{
    reveal(keyword);
    lemma_keyword_lengths();
    lemma_reads_keyword(w);
    lemma_rest_of_sum("if "@, w);
    lemma_rest_of_sum("then "@, w);
    lemma_rest_of_sum("else "@, w);
    assert("fi "@ + w =~= seq!['f', 'i'] + (seq![' '] + w));
    lemma_rest_of_sum(seq!['f', 'i'], seq![' '] + w);
}

/// The text of the two branches of a conditional, from `then` to the blank
/// behind `fi`, and `w` behind it.
pub open spec fn branches_text(a: ExpressionSpec, b: ExpressionSpec, w: Seq<char>) -> Seq<char> {
    "then "@ + (rendered(a) + ("else "@ + (rendered(b) + ("fi "@ + w))))
}

/// The text of a conditional, from `if` to the closing parenthesis, and `w`
/// behind it.
pub open spec fn choice_text(
    l: ExpressionSpec,
    r: ExpressionSpec,
    a: ExpressionSpec,
    b: ExpressionSpec,
    w: Seq<char>,
) -> Seq<char> {
    "if "@ + (rendered(l) + (seq!['<'] + (rendered(r) + branches_text(a, b, seq![')'] + w))))
}

/// Two texts with `<` between them are read as the two sides of a
/// condition.
pub proof fn lemma_comparison_reads(l: ExpressionSpec, r: ExpressionSpec, z: Seq<char>)
    requires
        reads_back(l),
        reads_back(r),
        neutral(z),
    ensures
        comparison(operation_text(l, '<', r, z)) == gives(
            (l, r),
            rendered(l).len() + 1 + rendered(r).len(),
        ),
        rest(operation_text(l, '<', r, z), rendered(l).len() + 1 + rendered(r).len()) == z,
{
    let w2 = rendered(r) + z;
    let w1 = seq!['<'] + w2;
    let s = rendered(l) + w1;
    let nl = rendered(l).len();
    let nr = rendered(r).len();
    lemma_opens(r, z);
    lemma_reads_operator(w2);
    lemma_operand_reads(l, w1);
    assert(less_than(w1) == gives((), 1)) by {
        reveal(less_than);
    }
    lemma_rest_of_sum(seq!['<'], w2);
    lemma_rest_chain(s, nl, w1, 1, w2);
    lemma_operand_reads(r, z);
    lemma_rest_chain(s, nl + 1, w2, nr, z);
    lemma_step_comparison(s, l, nl, 1, r, nr);
}

/// `then`, a text, `else`, a text and `fi` are read as the two branches of
/// a conditional; the blank behind the `fi` is left.
pub proof fn lemma_branches_reads(a: ExpressionSpec, b: ExpressionSpec, w: Seq<char>)
    requires
        reads_back(a),
        reads_back(b),
    ensures
        branches(branches_text(a, b, w)) == gives(
            (a, b),
            5 + rendered(a).len() + 5 + rendered(b).len() + 2,
        ),
        rest(branches_text(a, b, w), 5 + rendered(a).len() + 5 + rendered(b).len() + 2) == seq![
            ' ',
        ] + w,
        5 + rendered(a).len() + 5 + rendered(b).len() + 2 <= branches_text(a, b, w).len(),
{
    let x4 = "fi "@ + w;
    let x3 = rendered(b) + x4;
    let x2 = "else "@ + x3;
    let x1 = rendered(a) + x2;
    let s = "then "@ + x1;
    let na = rendered(a).len();
    let nb = rendered(b).len();
    lemma_keyword_reads(x1);
    lemma_keyword_reads(x3);
    lemma_keyword_reads(w);
    lemma_operand_reads(a, x2);
    lemma_rest_chain(s, 5, x1, na, x2);
    lemma_rest_chain(s, 5 + na, x2, 5, x3);
    lemma_operand_reads(b, x4);
    lemma_rest_chain(s, 5 + na + 5, x3, nb, x4);
    lemma_keyword_lengths();
    lemma_rest_chain(s, 5 + na + 5 + nb, x4, 2, seq![' '] + w);
    lemma_step_branches(s, 5, a, na, 5, b, nb, 2);
}

/// The text of a conditional, from `if` to the blank behind `fi`, is read
/// as the conditional in front of a closing parenthesis.
#[verifier::rlimit(30)]
pub proof fn lemma_choice_reads(
    l: ExpressionSpec,
    r: ExpressionSpec,
    a: ExpressionSpec,
    b: ExpressionSpec,
    w: Seq<char>,
)
    requires
        reads_back(l),
        reads_back(r),
        reads_back(a),
        reads_back(b),
    ensures
        expr(choice_text(l, r, a, b, w)) == gives(
            choice(l, r, a, b),
            3 + rendered(l).len() + 1 + rendered(r).len() + 5 + rendered(a).len() + 5 + rendered(
                b,
            ).len() + 2,
        ),
{
    let z2 = branches_text(a, b, seq![')'] + w);
    let y1 = operation_text(l, '<', r, z2);
    let s = "if "@ + y1;
    let m = rendered(l).len() + 1 + rendered(r).len();
    let k = 5 + rendered(a).len() + 5 + rendered(b).len() + 2;
    let last = seq![' '] + (seq![')'] + w);
    lemma_keyword_reads(y1);
    lemma_keyword_reads(rendered(a) + ("else "@ + (rendered(b) + ("fi "@ + (seq![')'] + w)))));
    lemma_comparison_reads(l, r, z2);
    lemma_rest_chain(s, 3, y1, m, z2);
    lemma_branches_reads(a, b, seq![')'] + w);
    lemma_rest_chain(s, 3 + m, z2, k, last);
    assert(last =~= seq![' ', ')'] + w);
    lemma_reads_punctuation(w);
    lemma_step_conditional(s, 3, l, r, m, a, b, k);
}

/// Whether what stands between the parentheses of the text of `e` is read
/// as `e` in front of the closing parenthesis and `w`.
pub open spec fn inner_reads(e: ExpressionSpec, w: Seq<char>) -> bool {
    expr(inner(e) + (closing(e) + w)) == gives(e, inner(e).len())
}

/// What is read between the parentheses of a text is read as a primary
/// with them.
pub proof fn lemma_wrapped_reads(e: ExpressionSpec, w: Seq<char>)
    requires
        inner_reads(e, w),
    ensures
        primary(rendered(e) + w) == gives(e, rendered(e).len()),
{
    let tail_text = closing(e) + w;
    let body = inner(e) + tail_text;
    let s = rendered(e) + w;
    assert(s =~= seq!['('] + body);
    lemma_reads_punctuation(body);
    lemma_rest_of_sum(seq!['('], body);
    lemma_rest_of_sum(inner(e), tail_text);
    lemma_rest_chain(s, 1, body, inner(e).len(), tail_text);
    lemma_reads_punctuation(w);
    assert(keyword(tail_text, TokenSpec::Close, ErrorKind::ExpectedClose) == gives(
        (),
        closing(e).len(),
    )) by {
        reveal(keyword);
    }
    lemma_step_group(s, e, inner(e).len(), closing(e).len());
}

/// A number in front of a closing parenthesis is read as an expression.
pub proof fn lemma_number_inner(n: nat, w: Seq<char>)
    requires
        n <= i32::MAX,
    ensures
        inner_reads(ExpressionSpec::NumberLiteral(n as int), w),
{
    let e = ExpressionSpec::NumberLiteral(n as int);
    let z = seq![')'] + w;
    let s = numeral_of(n) + z;
    lemma_reads_number(n, z);
    lemma_step_number(s, n as int, numeral_of(n).len());
    lemma_rest_of_sum(numeral_of(n), z);
    lemma_reads_punctuation(w);
    lemma_step_operand(s, e, numeral_of(n).len());
}

/// A name in front of a closing parenthesis is read as an expression.
pub proof fn lemma_name_inner(x: Seq<char>, w: Seq<char>)
    requires
        valid_name(x),
    ensures
        inner_reads(ExpressionSpec::VariableReference(x), w),
{
    let e = ExpressionSpec::VariableReference(x);
    let z = seq![')'] + w;
    let s = x + z;
    lemma_reads_name(x, z);
    lemma_step_name(s, x, x.len());
    lemma_rest_of_sum(x, z);
    lemma_reads_punctuation(w);
    lemma_step_operand(s, e, x.len());
}

/// The inner text of an operation is read as it.
pub proof fn lemma_operation_inner(l: ExpressionSpec, r: ExpressionSpec, w: Seq<char>)
    requires
        reads_back(l),
        reads_back(r),
    ensures
        inner_reads(ExpressionSpec::Add(Box::new(l), Box::new(r)), w),
        inner_reads(ExpressionSpec::Sub(Box::new(l), Box::new(r)), w),
        inner_reads(ExpressionSpec::Mult(Box::new(l), Box::new(r)), w),
        inner_reads(ExpressionSpec::Div(Box::new(l), Box::new(r)), w),
{
    let z = seq![')'] + w;
    lemma_reads_punctuation(w);
    lemma_add_reads(l, r, z);
    lemma_sub_reads(l, r, z);
    lemma_mult_reads(l, r, z);
    lemma_div_reads(l, r, z);
    assert forall|sign: char| #[trigger]
        operation_text(l, sign, r, z) == (rendered(l) + seq![sign] + rendered(r)) + z by {
        assert(operation_text(l, sign, r, z) =~= (rendered(l) + seq![sign] + rendered(r)) + z);
    }
    assert(operation_text(l, '+', r, z) == (rendered(l) + seq!['+'] + rendered(r)) + z);
    assert(operation_text(l, '-', r, z) == (rendered(l) + seq!['-'] + rendered(r)) + z);
    assert(operation_text(l, '*', r, z) == (rendered(l) + seq!['*'] + rendered(r)) + z);
    assert(operation_text(l, '/', r, z) == (rendered(l) + seq!['/'] + rendered(r)) + z);
}

/// The inner text of a power is read as it.
pub proof fn lemma_power_inner(b: ExpressionSpec, k: nat, w: Seq<char>)
    requires
        reads_back(b),
        k <= i32::MAX,
    ensures
        inner_reads(power(b, ExpressionSpec::NumberLiteral(k as int)), w),
{
    let z = seq![')'] + w;
    lemma_power_reads(b, k, w);
    assert((rendered(b) + seq!['*', '*'] + numeral_of(k)) + z =~= power_text(b, k, w));
}

/// The inner text of a conditional is read as it.
pub proof fn lemma_choice_inner(
    l: ExpressionSpec,
    r: ExpressionSpec,
    a: ExpressionSpec,
    b: ExpressionSpec,
    w: Seq<char>,
)
    requires
        reads_back(l),
        reads_back(r),
        reads_back(a),
        reads_back(b),
    ensures
        inner_reads(choice(l, r, a, b), w),
{
    let e = choice(l, r, a, b);
    lemma_choice_reads(l, r, a, b, w);
    lemma_keyword_lengths();
    assert(inner(e) == "if "@ + (rendered(l) + "<"@ + rendered(r)) + "then "@ + rendered(a)
        + "else "@ + rendered(b) + "fi"@);
    assert(inner(e) + (seq![' ', ')'] + w) =~= choice_text(l, r, a, b, w));
}

/// The text between the parentheses of a tree is read as the tree where
/// the texts of its parts are read back.
pub proof fn lemma_inner_reads(e: ExpressionSpec, w: Seq<char>)
    requires
        printable(e),
        match e {
            ExpressionSpec::Add(l, r) => reads_back(*l) && reads_back(*r),
            ExpressionSpec::Sub(l, r) => reads_back(*l) && reads_back(*r),
            ExpressionSpec::Mult(l, r) => reads_back(*l) && reads_back(*r),
            ExpressionSpec::Div(l, r) => reads_back(*l) && reads_back(*r),
            ExpressionSpec::Pow(b, _) => reads_back(*b),
            ExpressionSpec::IfElse(c, a, b) => reads_back(*a) && reads_back(*b) && (
            *c matches ConditionSpec::Lt(l, r) ==> reads_back(l) && reads_back(r)),
            _ => true,
        },
    ensures
        inner_reads(e, w),
{
    match e {
        ExpressionSpec::NumberLiteral(n) => {
            lemma_number_inner(n as nat, w);
        },
        ExpressionSpec::VariableReference(x) => {
            lemma_name_inner(x, w);
        },
        ExpressionSpec::Add(l, r) => {
            lemma_operation_inner(*l, *r, w);
        },
        ExpressionSpec::Sub(l, r) => {
            lemma_operation_inner(*l, *r, w);
        },
        ExpressionSpec::Mult(l, r) => {
            lemma_operation_inner(*l, *r, w);
        },
        ExpressionSpec::Div(l, r) => {
            lemma_operation_inner(*l, *r, w);
        },
        ExpressionSpec::Pow(b, x) => {
            if let ExpressionSpec::NumberLiteral(k) = *x {
                lemma_power_inner(*b, k as nat, w);
            }
        },
        ExpressionSpec::IfElse(c, a, b) => {
            if let ConditionSpec::Lt(l, r) = *c {
                lemma_choice_inner(l, r, *a, *b, w);
            }
        },
    }
}

/// The text of a tree that the parser can produce is read back as that
/// tree, whatever follows it.
pub proof fn lemma_reads_back(e: ExpressionSpec)
    requires
        printable(e),
    ensures
        reads_back(e),
    decreases e,
{
    match e {
        ExpressionSpec::Add(l, r) => {
            lemma_reads_back(*l);
            lemma_reads_back(*r);
        },
        ExpressionSpec::Sub(l, r) => {
            lemma_reads_back(*l);
            lemma_reads_back(*r);
        },
        ExpressionSpec::Mult(l, r) => {
            lemma_reads_back(*l);
            lemma_reads_back(*r);
        },
        ExpressionSpec::Div(l, r) => {
            lemma_reads_back(*l);
            lemma_reads_back(*r);
        },
        ExpressionSpec::Pow(b, _) => {
            lemma_reads_back(*b);
        },
        ExpressionSpec::IfElse(c, a, b) => {
            if let ConditionSpec::Lt(l, r) = *c {
                lemma_reads_back(l);
                lemma_reads_back(r);
            }
            lemma_reads_back(*a);
            lemma_reads_back(*b);
        },
        _ => {},
    }
    assert forall|w: Seq<char>| #[trigger]
        primary(rendered(e) + w) == gives(e, rendered(e).len()) by {
        lemma_inner_reads(e, w);
        lemma_wrapped_reads(e, w);
    }
    reveal(reads_back);
}

/// Whether the tree of the outcome `r`, where it has one, is a tree that
/// the parser can produce.
pub open spec fn yields_printable(r: Parsed<ExpressionSpec>) -> bool {
    r matches Ok((e, _)) ==> printable(e)
}

/// Whether the two trees of the outcome `r`, where it has them, are trees
/// that the parser can produce.
pub open spec fn yields_printable_pair(r: Parsed<(ExpressionSpec, ExpressionSpec)>) -> bool {
    r matches Ok(((a, b), _)) ==> printable(a) && printable(b)
}

/// A literal is a number that is not negative and fits the number type.
pub proof fn lemma_literal_printable(s: Seq<char>)
    ensures
        literal(s) matches Ok((x, _)) ==> x matches ExpressionSpec::NumberLiteral(k) && 0 <= k
            <= i32::MAX,
{
    reveal(literal);
    lemma_token_payload(s);
}

/// A primary is a tree that the parser can produce.
pub proof fn lemma_primary_printable(s: Seq<char>)
    ensures
        yields_printable(primary(s)),
    decreases s.len(), 0nat,
{
    lemma_token_consumes(s);
    lemma_token_payload(s);
    if let Ok(Some((TokenSpec::Open, n))) = token(s) {
        lemma_expr_printable(rest(s, n));
    }
}

/// The two sides of a condition are trees that the parser can produce.
pub proof fn lemma_comparison_printable(s: Seq<char>)
    ensures
        yields_printable_pair(comparison(s)),
    decreases s.len(), 3nat,
{
    lemma_expr_printable(s);
    if let Ok((_, n)) = expr(s) {
        if let Ok((_, k)) = less_than(rest(s, n)) {
            lemma_expr_printable(rest(s, n + k));
        }
    }
}

/// The two branches of a conditional are trees that the parser can
/// produce.
pub proof fn lemma_branches_printable(s: Seq<char>)
    ensures
        yields_printable_pair(branches(s)),
    decreases s.len(), 0nat,
{
    lemma_word_consumes(s, TokenSpec::Then, ErrorKind::ExpectedThen);
    if let Ok((_, n)) = keyword(s, TokenSpec::Then, ErrorKind::ExpectedThen) {
        lemma_expr_printable(rest(s, n));
        if let Ok((_, m)) = expr(rest(s, n)) {
            if let Ok((_, k)) = keyword(rest(s, n + m), TokenSpec::Else, ErrorKind::ExpectedElse) {
                lemma_expr_printable(rest(s, n + m + k));
            }
        }
    }
}

/// A conditional is a tree that the parser can produce.
pub proof fn lemma_conditional_printable(s: Seq<char>)
    ensures
        yields_printable(conditional(s)),
    decreases s.len(), 0nat,
{
    lemma_word_consumes(s, TokenSpec::If, ErrorKind::ExpectedIf);
    if let Ok((_, n)) = keyword(s, TokenSpec::If, ErrorKind::ExpectedIf) {
        lemma_comparison_printable(rest(s, n));
        if let Ok(((left, right), m)) = comparison(rest(s, n)) {
            lemma_branches_printable(rest(s, n + m));
            if let Ok(((first, second), k)) = branches(rest(s, n + m)) {
                lemma_expr1_printable(choice(left, right, first, second), rest(s, n + m + k));
            }
        }
    }
}

/// What follows an operand of a product keeps the tree one that the parser
/// can produce.
pub proof fn lemma_term1_printable(e: ExpressionSpec, s: Seq<char>)
    requires
        printable(e),
    ensures
        yields_printable(term1(e, s)),
    decreases s.len(), 0nat,
{
    lemma_token_consumes(s);
    match token(s) {
        Ok(Some((TokenSpec::Mult, n))) => {
            lemma_term_printable(rest(s, n));
        },
        Ok(Some((TokenSpec::Div, n))) => {
            lemma_term_printable(rest(s, n));
        },
        _ => {},
    }
}

/// What follows a sum keeps the tree one that the parser can produce.
pub proof fn lemma_expr1_printable(e: ExpressionSpec, s: Seq<char>)
    requires
        printable(e),
    ensures
        yields_printable(expr1(e, s)),
    decreases s.len(), 0nat,
{
    lemma_token_consumes(s);
    match token(s) {
        Ok(Some((TokenSpec::Add, n))) => {
            lemma_term_printable(rest(s, n));
            if let Ok((right, m)) = term(rest(s, n)) {
                lemma_expr1_printable(
                    ExpressionSpec::Add(Box::new(e), Box::new(right)),
                    rest(s, n + m),
                );
            }
        },
        Ok(Some((TokenSpec::Sub, n))) => {
            lemma_term_printable(rest(s, n));
            if let Ok((right, m)) = term(rest(s, n)) {
                lemma_expr1_printable(
                    ExpressionSpec::Sub(Box::new(e), Box::new(right)),
                    rest(s, n + m),
                );
            }
        },
        Ok(Some((TokenSpec::Pow, n))) => {
            lemma_literal_printable(rest(s, n));
            if let Ok((exponent, k)) = literal(rest(s, n)) {
                lemma_tail_printable(power(e, exponent), rest(s, n + k));
            }
        },
        _ => {},
    }
}

/// Everything that follows an operand keeps the tree one that the parser
/// can produce.
pub proof fn lemma_tail_printable(e: ExpressionSpec, s: Seq<char>)
    requires
        printable(e),
    ensures
        yields_printable(tail(e, s)),
    decreases s.len(), 1nat,
{
    lemma_term1_printable(e, s);
    if let Ok((product, n)) = term1(e, s) {
        lemma_expr1_printable(product, rest(s, n));
    }
}

/// An expression is a tree that the parser can produce.
pub proof fn lemma_expr_printable(s: Seq<char>)
    ensures
        yields_printable(expr(s)),
    decreases s.len(), 2nat,
{
    if starts_conditional(s) {
        lemma_conditional_printable(s);
    } else {
        lemma_primary_printable(s);
        if let Ok((e, n)) = primary(s) {
            lemma_tail_printable(e, rest(s, n));
        }
    }
}

/// A product is a tree that the parser can produce.
pub proof fn lemma_term_printable(s: Seq<char>)
    ensures
        yields_printable(term(s)),
    decreases s.len(), 4nat,
{
    lemma_factor_is_primary(s);
    if let Ok((e, n)) = factor(s) {
        if starts_conditional(s) {
            lemma_conditional_printable(s);
        } else {
            lemma_primary_printable(s);
        }
        lemma_term1_printable(e, rest(s, n));
    }
}

/// Parsing, writing out and parsing again gives the first tree: where a
/// text is read as an expression, the text of that expression is read as
/// the same expression, to its last character.
pub proof fn lemma_expression_reparses(s: Seq<char>)
    ensures
        expr(s) matches Ok((e, _)) ==> expr(rendered(e)) == gives(e, rendered(e).len()),
{
    if let Ok((e, _)) = expr(s) {
        lemma_expr_printable(s);
        lemma_printable_reparses(e);
    }
}

/// The text of a tree that the parser can produce is read as that tree, to
/// its last character.
pub proof fn lemma_printable_reparses(e: ExpressionSpec)
    requires
        printable(e),
    ensures
        expr(rendered(e)) == gives(e, rendered(e).len()),
{
    let nothing = Seq::<char>::empty();
    lemma_reads_back(e);
    lemma_no_token_in_nothing(nothing);
    lemma_operand_reads(e, nothing);
    assert(rendered(e) + nothing =~= rendered(e));
}

/// Parsing, writing out and parsing again gives the first statement: where
/// a line is read as a statement, the text of that statement is read as the
/// same statement, to its last character.
pub proof fn lemma_statement_reparses(s: Seq<char>)
    ensures
        statement(s) matches Ok((st, _)) ==> statement(rendered_statement(st)) == gives(st, rendered_statement(st).len()),
{
    lemma_token_payload(s);
    match statement(s) {
        Ok((StatementSpec::Definition(name, e), _)) => {
            if let Ok(Some((TokenSpec::Ide(x), n))) = token(s) {
                if let Ok((_, k)) = assign(rest(s, n)) {
                    lemma_expr_printable(rest(s, n + k));
                }
            }
            lemma_printable_reparses(e);
            let text = rendered_statement(StatementSpec::Definition(name, e));
            let value = seq!['='] + rendered(e);
            lemma_opens(e, Seq::empty());
            assert(rendered(e) + Seq::<char>::empty() =~= rendered(e));
            lemma_reads_name(name, value);
            lemma_reads_operator(rendered(e));
            assert(text =~= name + value);
            lemma_rest_of_sum(name, value);
            lemma_rest_of_sum(seq!['='], rendered(e));
            lemma_rest_chain(text, name.len(), value, 1, rendered(e));
            assert(assign(value) == gives((), 1)) by {
                reveal(assign);
            }
        },
        Ok((StatementSpec::Return(e), _)) => {
            if let Ok(Some((TokenSpec::Return, n))) = token(s) {
                lemma_expr_printable(rest(s, n));
            }
            lemma_printable_reparses(e);
            reveal_strlit("return ");
            lemma_reads_keyword(rendered(e));
            lemma_rest_of_sum("return "@, rendered(e));
        },
        _ => {},
    }
}

} // verus!
