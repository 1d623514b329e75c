//! Statements: one per line, an assignment or the final `return`.

use vstd::prelude::*;
use vstd::string::*;
use crate::ast::{Statement, StatementSpec};
use crate::error::{unexpected, ErrorKind, Fault, SyntaxError, SyntaxErrorSpec};
use crate::grammar::{expr, Parsed};
use crate::lexer::{lemma_token_consumes, next_token, token};
use crate::parser::{lemma_parsed_after, parse_expr, parsed_as, seen, used};
use crate::position::Position;
use crate::text::{lemma_run_is_maximal, rest, CharClass};
use crate::token::{Token, TokenSpec};

verus! {

/// The fault of the text `s` that is left behind a complete `return`
/// statement: it names the token that `s` starts with, if there is one.
pub open spec fn trailing(s: Seq<char>) -> Fault {
    unexpected(
        ErrorKind::TrailingInput,
        0,
        match token(s) {
            Ok(found) => found,
            Err(_) => None,
        },
    )
}

/// The `=` of an assignment at the start of `s`. Any other token is a
/// fault that points behind that token; where no token is left, the fault
/// points at the start of `s`.
#[verifier::opaque]
pub open spec fn assign(s: Seq<char>) -> Parsed<()> {
    match token(s) {
        Err(f) => Err(f),
        Ok(Some((TokenSpec::Eq, k))) => Ok(((), k)),
        Ok(Some((t, k))) => Err(Fault { kind: ErrorKind::ExpectedAssign, at: k, found: Some(t) }),
        Ok(None) => Err(Fault { kind: ErrorKind::ExpectedAssign, at: 0, found: None }),
    }
}

/// The statement that the line `s` holds. An assignment is a name, `=` and
/// an expression; what follows the expression on the line is left unread.
/// A `return` and its expression must use up the line to its last
/// character.
pub open spec fn statement(s: Seq<char>) -> Parsed<StatementSpec> {
    match token(s) {
        Err(f) => Err(f),
        Ok(Some((TokenSpec::Ide(name), n))) => match assign(rest(s, n)) {
            Err(f) => Err(f.shifted(n)),
            Ok((_, k)) => match expr(rest(s, n + k)) {
                Err(f) => Err(f.shifted(n + k)),
                Ok((e, m)) => Ok((StatementSpec::Definition(name, e), n + k + m)),
            },
        },
        Ok(Some((TokenSpec::Return, n))) => match expr(rest(s, n)) {
            Err(f) => Err(f.shifted(n)),
            Ok((e, m)) => if n + m == s.len() {
                Ok((StatementSpec::Return(e), n + m))
            } else {
                Err(trailing(rest(s, n + m)).shifted(n + m))
            },
        },
        Ok(found) => Err(unexpected(ErrorKind::ExpectedStatement, 0, found)),
    }
}

/// No token is left in a text without characters.
pub proof fn lemma_no_token_in_nothing(s: Seq<char>)
    requires
        s.len() == 0,
    ensures
        token(s) == Ok::<Option<(TokenSpec, nat)>, Fault>(None),
{
    reveal(token);
    lemma_run_is_maximal(s, CharClass::Blank);
}

/// A `return` statement uses up its line: where a line is read as one,
/// every character of it was consumed and no token is left behind it.
pub proof fn lemma_return_uses_up_line(s: Seq<char>)
    ensures
        statement(s) matches Ok((StatementSpec::Return(_), n)) ==> n == s.len() && token(
            rest(s, n),
        ) == Ok::<Option<(TokenSpec, nat)>, Fault>(None),
{
    if let Ok((StatementSpec::Return(_), n)) = statement(s) {
        lemma_no_token_in_nothing(rest(s, n));
    }
}

/// Reads the `=` of an assignment. The error for another token stands
/// behind that token.
pub fn parse_assign<'a>(input: &'a str, pos: Position) -> (r: Result<
    ((), &'a str, Position),
    SyntaxError,
>)
    requires
        pos.fits(input@.len()),
    ensures
        parsed_as(r, assign(input@), input@, pos),
{
    proof {
        reveal(assign);
        lemma_token_consumes(input@);
    }
    match next_token(input, pos) {
        Err(e) => Err(e),
        Ok(Some((Token::Eq, rest, p))) => Ok(((), rest, p)),
        Ok(Some((t, _, p))) => Err(
            SyntaxError { kind: ErrorKind::ExpectedAssign, pos: p, found: Some(t) },
        ),
        Ok(None) => Err(SyntaxError { kind: ErrorKind::ExpectedAssign, pos, found: None }),
    }
}

/// Reads the statement that the line `input` holds.
pub fn parse_statement<'a>(input: &'a str, pos: Position) -> (r: Result<
    (Statement, &'a str, Position),
    SyntaxError,
>)
    requires
        pos.fits(input@.len()),
    ensures
        parsed_as(r, statement(input@), input@, pos),
        r matches Ok((Statement::Return(_), rest, _)) ==> rest@.len() == 0,
{
    proof {
        lemma_token_consumes(input@);
    }
    match next_token(input, pos) {
        Err(e) => Err(e),
        Ok(Some((Token::Ide(name), s1, p1))) => {
            let sign = parse_assign(s1, p1);
            proof {
                lemma_parsed_after(sign, assign(s1@), input@, pos, used(input, s1));
            }
            match sign {
                Err(e) => Err(e),
                Ok((_, s2, p2)) => {
                    let value = parse_expr(s2, p2);
                    proof {
                        lemma_parsed_after(value, expr(s2@), input@, pos, used(input, s2));
                    }
                    match value {
                        Err(e) => Err(e),
                        Ok((e, s3, p3)) => Ok((Statement::Definition(name, e), s3, p3)),
                    }
                },
            }
        },
        Ok(Some((Token::Return, s1, p1))) => {
            let value = parse_expr(s1, p1);
            proof {
                lemma_parsed_after(value, expr(s1@), input@, pos, used(input, s1));
            }
            match value {
                Err(e) => Err(e),
                Ok((e, s2, p2)) => {
                    if s2.unicode_len() == 0 {
                        Ok((Statement::Return(e), s2, p2))
                    } else {
                        let found = match next_token(s2, p2) {
                            Ok(found) => seen(found),
                            Err(_) => None,
                        };
                        Err(SyntaxError { kind: ErrorKind::TrailingInput, pos: p2, found })
                    }
                },
            }
        },
        Ok(found) => Err(
            SyntaxError { kind: ErrorKind::ExpectedStatement, pos, found: seen(found) },
        ),
    }
}

/// The statement that the line `s` of number `at` holds when it is read
/// from its first column, or the error that it holds none.
pub open spec fn line(s: Seq<char>, at: usize) -> Result<StatementSpec, SyntaxErrorSpec> {
    match statement(s) {
        Ok((st, _)) => Ok(st),
        Err(f) => Err(f.located(Position { line: at, col: 0 })),
    }
}

/// Reads the statement that the line `input` of number `at` holds.
pub fn parse_line(input: &str, at: usize) -> (r: Result<Statement, SyntaxError>)
    ensures
        match line(input@, at) {
            Ok(st) => r matches Ok(x) && x@ == st,
            Err(e) => r matches Err(x) && x@ == e,
        },
{
    let n: usize = input.unicode_len();
    match parse_statement(input, Position { line: at, col: 0 }) {
        Ok((st, _, _)) => Ok(st),
        Err(e) => Err(e),
    }
}

} // verus!
