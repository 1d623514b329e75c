use expr_parser::ast::{Condition, Expression, Statement};
use expr_parser::error::{ErrorKind, SyntaxError};
use expr_parser::position::Position;
use expr_parser::statement::{parse_assign, parse_statement};
use expr_parser::token::Token;

fn start() -> Position {
    Position { line: 1, col: 0 }
}

fn num(n: i32) -> Box<Expression> {
    Box::new(Expression::NumberLiteral(n))
}

fn var(name: &str) -> Box<Expression> {
    Box::new(Expression::VariableReference(name.to_string()))
}

fn definition(name: &str, e: Expression) -> Statement {
    Statement::Definition(name.to_string(), e)
}

#[test]
fn product_binds_tighter_than_sum() {
    let (first, rest, pos) = parse_statement("x = 2 + 3 * 4", start()).unwrap();
    assert_eq!(
        first,
        definition("x", Expression::Add(num(2), Box::new(Expression::Mult(num(3), num(4)))))
    );
    assert_eq!(rest, "");
    assert_eq!(pos, Position { line: 1, col: 13 });
    let (second, rest, pos) = parse_statement("return x", Position { line: 2, col: 0 }).unwrap();
    assert_eq!(second, Statement::Return(Expression::VariableReference("x".to_string())));
    assert_eq!(rest, "");
    assert_eq!(pos, Position { line: 2, col: 8 });
}

#[test]
fn products_nest_to_the_right() {
    let (st, _, _) = parse_statement("x = 2 * 3 * 4", start()).unwrap();
    assert_eq!(
        st,
        definition("x", Expression::Mult(num(2), Box::new(Expression::Mult(num(3), num(4)))))
    );
}

#[test]
fn sums_fold_to_the_left() {
    let (st, _, _) = parse_statement("x = 1 - 2 + 3", start()).unwrap();
    assert_eq!(
        st,
        definition("x", Expression::Add(Box::new(Expression::Sub(num(1), num(2))), num(3)))
    );
}

#[test]
fn power_raises_the_sum_before_it() {
    let (st, _, _) = parse_statement("x = 2 + 3 ** 2", start()).unwrap();
    assert_eq!(
        st,
        definition("x", Expression::Pow(Box::new(Expression::Add(num(2), num(3))), num(2)))
    );
}

#[test]
fn power_without_blank_before_exponent() {
    let (st, _, _) = parse_statement("x = a**3", start()).unwrap();
    assert_eq!(st, definition("x", Expression::Pow(var("a"), num(3))));
}

#[test]
fn quotient_and_parentheses() {
    let (st, _, _) = parse_statement("y = (a + 1) / b", start()).unwrap();
    assert_eq!(
        st,
        definition(
            "y",
            Expression::Div(Box::new(Expression::Add(var("a"), num(1))), var("b"))
        )
    );
}

#[test]
fn conditional_expression() {
    let (st, rest, _) = parse_statement("x = if a < b then 1 else 2 fi", start()).unwrap();
    assert_eq!(
        st,
        definition(
            "x",
            Expression::IfElse(
                Box::new(Condition::Lt(
                    Expression::VariableReference("a".to_string()),
                    Expression::VariableReference("b".to_string())
                )),
                num(1),
                num(2)
            )
        )
    );
    assert_eq!(rest, "");
}

#[test]
fn conditional_goes_on_as_a_sum() {
    let (st, _, _) = parse_statement("return if a < b then 1 else 2 fi + 3", start()).unwrap();
    let choice = Expression::IfElse(
        Box::new(Condition::Lt(
            Expression::VariableReference("a".to_string()),
            Expression::VariableReference("b".to_string()),
        )),
        num(1),
        num(2),
    );
    assert_eq!(st, Statement::Return(Expression::Add(Box::new(choice), num(3))));
}

#[test]
fn unmatched_parenthesis_is_reported_where_it_is_missed() {
    let err = parse_statement("x = (1 + 2", Position { line: 7, col: 0 }).unwrap_err();
    assert_eq!(
        err,
        SyntaxError {
            kind: ErrorKind::ExpectedClose,
            pos: Position { line: 7, col: 10 },
            found: None
        }
    );
}

#[test]
fn wrong_token_in_place_of_parenthesis() {
    let err = parse_statement("x = (1 + 2 = 3", start()).unwrap_err();
    assert_eq!(
        err,
        SyntaxError {
            kind: ErrorKind::ExpectedClose,
            pos: Position { line: 1, col: 10 },
            found: Some(Token::Eq)
        }
    );
}

#[test]
fn return_must_use_up_the_line() {
    let err = parse_statement("return x )", start()).unwrap_err();
    assert_eq!(
        err,
        SyntaxError {
            kind: ErrorKind::TrailingInput,
            pos: Position { line: 1, col: 8 },
            found: Some(Token::Close)
        }
    );
    let err = parse_statement("return x ", start()).unwrap_err();
    assert_eq!(
        err,
        SyntaxError {
            kind: ErrorKind::TrailingInput,
            pos: Position { line: 1, col: 8 },
            found: None
        }
    );
}

#[test]
fn definition_leaves_the_rest_of_the_line() {
    let (st, rest, pos) = parse_statement("x = 1 )", start()).unwrap();
    assert_eq!(st, definition("x", Expression::NumberLiteral(1)));
    assert_eq!(rest, " )");
    assert_eq!(pos, Position { line: 1, col: 5 });
}

#[test]
fn statement_must_start_with_name_or_return() {
    let err = parse_statement("3 = x", start()).unwrap_err();
    assert_eq!(
        err,
        SyntaxError { kind: ErrorKind::ExpectedStatement, pos: start(), found: Some(Token::Num(3)) }
    );
    let err = parse_statement("", start()).unwrap_err();
    assert_eq!(err, SyntaxError { kind: ErrorKind::ExpectedStatement, pos: start(), found: None });
}

#[test]
fn assignment_needs_its_sign() {
    let err = parse_statement("x + 1", start()).unwrap_err();
    assert_eq!(
        err,
        SyntaxError {
            kind: ErrorKind::ExpectedAssign,
            pos: Position { line: 1, col: 3 },
            found: Some(Token::Add)
        }
    );
    let err = parse_statement("total   == 1", Position { line: 5, col: 2 }).unwrap_err();
    assert_eq!(
        err,
        SyntaxError {
            kind: ErrorKind::ExpectedAssign,
            pos: Position { line: 5, col: 12 },
            found: Some(Token::Eqeq)
        }
    );
    let err = parse_statement("x", start()).unwrap_err();
    assert_eq!(
        err,
        SyntaxError { kind: ErrorKind::ExpectedAssign, pos: Position { line: 1, col: 1 }, found: None }
    );
    let err = parse_statement("x  \t", start()).unwrap_err();
    assert_eq!(
        err,
        SyntaxError { kind: ErrorKind::ExpectedAssign, pos: Position { line: 1, col: 1 }, found: None }
    );
    let err = parse_statement("x ?", start()).unwrap_err();
    assert_eq!(
        err,
        SyntaxError {
            kind: ErrorKind::UnexpectedCharacter('?'),
            pos: Position { line: 1, col: 2 },
            found: None
        }
    );
}

#[test]
fn sign_of_an_assignment() {
    assert_eq!(parse_assign(" = 1", start()), Ok(((), " 1", Position { line: 1, col: 2 })));
    let err = parse_assign(" then 1", start()).unwrap_err();
    assert_eq!(
        err,
        SyntaxError {
            kind: ErrorKind::ExpectedAssign,
            pos: Position { line: 1, col: 6 },
            found: Some(Token::Then)
        }
    );
    let err = parse_assign("", Position { line: 1, col: 4 }).unwrap_err();
    assert_eq!(
        err,
        SyntaxError { kind: ErrorKind::ExpectedAssign, pos: Position { line: 1, col: 4 }, found: None }
    );
}

#[test]
fn missing_keywords_of_a_conditional() {
    let err = parse_statement("x = if a < b 1 else 2 fi", start()).unwrap_err();
    assert_eq!(err.kind, ErrorKind::ExpectedThen);
    assert_eq!(err.pos, Position { line: 1, col: 12 });
    assert_eq!(err.found, Some(Token::Num(1)));
    let err = parse_statement("x = if a < b then 1 fi", start()).unwrap_err();
    assert_eq!(err.kind, ErrorKind::ExpectedElse);
    assert_eq!(err.found, Some(Token::Fi));
    let err = parse_statement("x = if a < b then 1 else 2", start()).unwrap_err();
    assert_eq!(err.kind, ErrorKind::ExpectedFi);
    assert_eq!(err.pos, Position { line: 1, col: 26 });
    assert_eq!(err.found, None);
}

#[test]
fn only_less_than_is_understood() {
    let err = parse_statement("x = if a <= b then 1 else 2 fi", start()).unwrap_err();
    assert_eq!(
        err,
        SyntaxError {
            kind: ErrorKind::UnsupportedComparator,
            pos: Position { line: 1, col: 8 },
            found: Some(Token::Le)
        }
    );
    let err = parse_statement("x = if a then 1 else 2 fi", start()).unwrap_err();
    assert_eq!(err.kind, ErrorKind::ExpectedComparator);
    assert_eq!(err.found, Some(Token::Then));
}

#[test]
fn exponent_must_be_a_literal() {
    let err = parse_statement("x = a ** b", start()).unwrap_err();
    assert_eq!(
        err,
        SyntaxError {
            kind: ErrorKind::ExpectedNumber,
            pos: Position { line: 1, col: 8 },
            found: Some(Token::Ide("b".to_string()))
        }
    );
}

#[test]
fn operand_is_missed() {
    let err = parse_statement("x = 1 +", start()).unwrap_err();
    assert_eq!(
        err,
        SyntaxError {
            kind: ErrorKind::ExpectedOperand,
            pos: Position { line: 1, col: 7 },
            found: None
        }
    );
    let err = parse_statement("x = * 2", start()).unwrap_err();
    assert_eq!(err.kind, ErrorKind::ExpectedOperand);
    assert_eq!(err.pos, Position { line: 1, col: 3 });
    assert_eq!(err.found, Some(Token::Mult));
}

#[test]
fn character_that_starts_no_token() {
    let err = parse_statement("x = 1 $ 2", start()).unwrap_err();
    assert_eq!(
        err,
        SyntaxError {
            kind: ErrorKind::UnexpectedCharacter('$'),
            pos: Position { line: 1, col: 6 },
            found: None
        }
    );
}

#[test]
fn numeral_beyond_the_number_type() {
    let (st, _, _) = parse_statement("x = 2147483647", start()).unwrap();
    assert_eq!(st, definition("x", Expression::NumberLiteral(2147483647)));
    let err = parse_statement("x = 2147483648", start()).unwrap_err();
    assert_eq!(
        err,
        SyntaxError {
            kind: ErrorKind::NumberTooLarge,
            pos: Position { line: 1, col: 4 },
            found: None
        }
    );
}
