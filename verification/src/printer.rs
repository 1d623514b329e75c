//! Writing trees out as text that the parser reads back.
//!
//! Every expression is written between parentheses, operands included, and
//! without blanks but behind keywords. That is more than a reader needs, and
//! exactly what makes the text independent of the order in which the parser
//! takes operators, and of names that are spelled like keywords.

use vstd::prelude::*;
use vstd::string::*;
use crate::ast::{Condition, ConditionSpec, Expression, ExpressionSpec, Statement, StatementSpec};
use crate::message::integer_text;
use crate::text::write_number;

verus! {

/// The text of an exponent: a literal number bare, any other tree like an
/// operand.
pub open spec fn exponent_text(x: ExpressionSpec) -> Seq<char>
    decreases x, 3nat,
{
    match x {
        ExpressionSpec::NumberLiteral(k) => integer_text(k),
        _ => rendered(x),
    }
}

/// The text of a condition: its two sides around the comparator.
pub open spec fn compared(c: ConditionSpec) -> Seq<char>
    decreases c, 0nat,
{
    match c {
        ConditionSpec::Lt(l, r) => rendered(l) + "<"@ + rendered(r),
        ConditionSpec::Le(l, r) => rendered(l) + "<="@ + rendered(r),
        ConditionSpec::Eq(l, r) => rendered(l) + "=="@ + rendered(r),
        ConditionSpec::Ge(l, r) => rendered(l) + ">="@ + rendered(r),
        ConditionSpec::Gt(l, r) => rendered(l) + ">"@ + rendered(r),
    }
}

/// What stands between the parentheses of the text of `e`.
pub open spec fn inner(e: ExpressionSpec) -> Seq<char>
    decreases e, 1nat,
{
    match e {
        ExpressionSpec::NumberLiteral(n) => integer_text(n),
        ExpressionSpec::VariableReference(x) => x,
        ExpressionSpec::Add(l, r) => rendered(*l) + seq!['+'] + rendered(*r),
        ExpressionSpec::Sub(l, r) => rendered(*l) + seq!['-'] + rendered(*r),
        ExpressionSpec::Mult(l, r) => rendered(*l) + seq!['*'] + rendered(*r),
        ExpressionSpec::Div(l, r) => rendered(*l) + seq!['/'] + rendered(*r),
        ExpressionSpec::Pow(b, x) => rendered(*b) + seq!['*', '*'] + exponent_text(*x),
        ExpressionSpec::IfElse(c, a, b) => "if "@ + compared(*c) + "then "@ + rendered(*a)
            + "else "@ + rendered(*b) + "fi"@,
    }
}

/// The closing parenthesis of the text of `e`; behind the `fi` of a
/// conditional a blank goes before it.
pub open spec fn closing(e: ExpressionSpec) -> Seq<char> {
    if e is IfElse {
        seq![' ', ')']
    } else {
        seq![')']
    }
}

/// The text of the expression `e`.
pub open spec fn rendered(e: ExpressionSpec) -> Seq<char>
    decreases e, 2nat,
{
    seq!['('] + inner(e) + closing(e)
}

/// The text of the statement `s`: `name=expression`, or `return` and the
/// expression.
pub open spec fn rendered_statement(s: StatementSpec) -> Seq<char> {
    match s {
        StatementSpec::Definition(name, e) => name + seq!['='] + rendered(e),
        StatementSpec::Return(e) => "return "@ + rendered(e),
    }
}

/// Appends the text of the whole number `v` to `out`.
fn write_integer(out: &mut String, v: i32)
    ensures
        final(out)@ == old(out)@ + integer_text(v as int),
{
    let wide: i64 = v as i64;
    if wide < 0 {
        out.push('-');
        write_number(out, (-wide) as u64);
        assert(out@ =~= old(out)@ + integer_text(v as int));
    } else {
        write_number(out, wide as u64);
    }
}

impl Condition {
    /// Appends the text of the condition to `out`.
    pub fn write(&self, out: &mut String)
        ensures
            final(out)@ == old(out)@ + compared(self@),
        decreases self, 0nat,
    {
        let (l, sign, r) = match self {
            Condition::Lt(l, r) => (l, "<", r),
            Condition::Le(l, r) => (l, "<=", r),
            Condition::Eq(l, r) => (l, "==", r),
            Condition::Ge(l, r) => (l, ">=", r),
            Condition::Gt(l, r) => (l, ">", r),
        };
        l.write(out);
        out.append(sign);
        r.write(out);
        assert(out@ =~= old(out)@ + (rendered(l@) + sign@ + rendered(r@)));
    }
}

impl Expression {
    /// Appends the texts of the two operands with `sign` between them.
    fn write_operation(&self, out: &mut String)
        requires
            self is Add || self is Sub || self is Mult || self is Div,
        ensures
            final(out)@ == old(out)@ + inner(self@),
        decreases self, 0nat,
    {
        let (l, sign, r) = match self {
            Expression::Add(l, r) => (l, '+', r),
            Expression::Sub(l, r) => (l, '-', r),
            Expression::Mult(l, r) => (l, '*', r),
            Expression::Div(l, r) => (l, '/', r),
            _ => {
                return ;
            },
        };
        l.write(out);
        out.push(sign);
        r.write(out);
        assert(out@ =~= old(out)@ + (rendered(l@) + seq![sign] + rendered(r@)));
    }

    /// Appends the text of the base, the power sign and the exponent.
    fn write_power(&self, out: &mut String)
        requires
            self is Pow,
        ensures
            final(out)@ == old(out)@ + inner(self@),
        decreases self, 0nat,
    {
        if let Expression::Pow(b, x) = self {
            b.write(out);
            out.push('*');
            out.push('*');
            let ghost signed = out@;
            assert(signed =~= old(out)@ + (rendered(b@) + seq!['*', '*']));
            match &**x {
                Expression::NumberLiteral(k) => {
                    write_integer(out, *k);
                },
                other => {
                    other.write(out);
                },
            }
            assert(out@ =~= old(out)@ + (rendered(b@) + seq!['*', '*'] + exponent_text(x@)));
        }
    }

    /// Appends the text of a conditional, from `if` to `fi`.
    fn write_choice(&self, out: &mut String)
        requires
            self is IfElse,
        ensures
            final(out)@ == old(out)@ + inner(self@),
        decreases self, 0nat,
    {
        if let Expression::IfElse(c, a, b) = self {
            out.append("if ");
            c.write(out);
            out.append("then ");
            a.write(out);
            out.append("else ");
            b.write(out);
            out.append("fi");
            assert(out@ =~= old(out)@ + ("if "@ + compared(c@) + "then "@ + rendered(a@)
                + "else "@ + rendered(b@) + "fi"@));
        }
    }

    /// Appends what stands between the parentheses of the text.
    fn write_inner(&self, out: &mut String)
        ensures
            final(out)@ == old(out)@ + inner(self@),
        decreases self, 1nat,
    {
        match self {
            Expression::NumberLiteral(n) => write_integer(out, *n),
            Expression::VariableReference(x) => out.append(x.as_str()),
            Expression::Pow(_, _) => self.write_power(out),
            Expression::IfElse(_, _, _) => self.write_choice(out),
            _ => self.write_operation(out),
        }
    }

    /// Appends the text of the expression to `out`.
    pub fn write(&self, out: &mut String)
        ensures
            final(out)@ == old(out)@ + rendered(self@),
        decreases self, 2nat,
    {
        out.push('(');
        self.write_inner(out);
        match self {
            Expression::IfElse(_, _, _) => {
                out.push(' ');
                out.push(')');
                assert(out@ =~= old(out)@ + (seq!['('] + inner(self@) + seq![' ', ')']));
            },
            _ => {
                out.push(')');
                assert(out@ =~= old(out)@ + (seq!['('] + inner(self@) + seq![')']));
            },
        }
    }

    /// The text of the expression.
    pub fn render(&self) -> (r: String)
        ensures
            r@ == rendered(self@),
    {
        let mut out = String::new();
        self.write(&mut out);
        assert(out@ =~= rendered(self@));
        out
    }
}

impl Statement {
    /// The text of the statement, on one line.
    pub fn render(&self) -> (r: String)
        ensures
            r@ == rendered_statement(self@),
    {
        let mut out = String::new();
        match self {
            Statement::Definition(name, e) => {
                out.append(name.as_str());
                out.push('=');
                e.write(&mut out);
                assert(out@ =~= rendered_statement(self@));
            },
            Statement::Return(e) => {
                out.append("return ");
                e.write(&mut out);
                assert(out@ =~= rendered_statement(self@));
            },
        }
        out
    }
}

} // verus!
