use expr_parser::ast::{Condition, Expression};
use expr_parser::error::{ErrorKind, SyntaxError};
use expr_parser::parser::{
    expect, parse_branches, parse_comparison, parse_expr, parse_expr1, parse_factor,
    parse_factor1, parse_if_then_else, parse_less_than, parse_literal, parse_primary, parse_tail,
    parse_term, parse_term1, seen,
};
use expr_parser::position::Position;
use expr_parser::token::Token;

fn at(col: usize) -> Position {
    Position { line: 1, col }
}

fn num(n: i32) -> Expression {
    Expression::NumberLiteral(n)
}

fn var(name: &str) -> Expression {
    Expression::VariableReference(name.to_string())
}

fn add(l: Expression, r: Expression) -> Expression {
    Expression::Add(Box::new(l), Box::new(r))
}

fn sub(l: Expression, r: Expression) -> Expression {
    Expression::Sub(Box::new(l), Box::new(r))
}

fn mult(l: Expression, r: Expression) -> Expression {
    Expression::Mult(Box::new(l), Box::new(r))
}

fn div(l: Expression, r: Expression) -> Expression {
    Expression::Div(Box::new(l), Box::new(r))
}

fn pow(l: Expression, r: i32) -> Expression {
    Expression::Pow(Box::new(l), Box::new(num(r)))
}

fn choice(l: Expression, r: Expression, a: Expression, b: Expression) -> Expression {
    Expression::IfElse(Box::new(Condition::Lt(l, r)), Box::new(a), Box::new(b))
}

#[test]
fn primaries() {
    assert_eq!(parse_primary("x + 1", at(0)), Ok((var("x"), " + 1", at(1))));
    assert_eq!(parse_primary(" 12*3", at(0)), Ok((num(12), "*3", at(3))));
    assert_eq!(parse_primary("(a + b) * c", at(0)), Ok((add(var("a"), var("b")), " * c", at(7))));
    assert_eq!(parse_primary("((7))", at(2)), Ok((num(7), "", at(7))));
    let err = parse_primary("if a < b then 1 else 2 fi", at(0)).unwrap_err();
    assert_eq!(err, SyntaxError { kind: ErrorKind::ExpectedOperand, pos: at(0), found: Some(Token::If) });
}

#[test]
fn expression_reads_as_far_as_operators_go() {
    assert_eq!(parse_expr("a + b * c - d )", at(0)),
        Ok((sub(add(var("a"), mult(var("b"), var("c"))), var("d")), " )", at(13))));
    assert_eq!(parse_expr("a then", at(0)), Ok((var("a"), " then", at(1))));
}

#[test]
fn product_in_front_takes_the_sum_behind_it() {
    assert_eq!(parse_expr("a * b + c", at(0)), Ok((add(mult(var("a"), var("b")), var("c")), "", at(9))));
    assert_eq!(parse_expr("a / b / c", at(0)), Ok((div(var("a"), div(var("b"), var("c"))), "", at(9))));
}

#[test]
fn power_behind_sums_and_products() {
    assert_eq!(parse_expr("a ** 2", at(0)), Ok((pow(var("a"), 2), "", at(6))));
    assert_eq!(parse_expr("a ** 2 ** 3", at(0)), Ok((pow(pow(var("a"), 2), 3), "", at(11))));
    assert_eq!(parse_expr("a * b ** 2", at(0)), Ok((pow(mult(var("a"), var("b")), 2), "", at(10))));
    assert_eq!(parse_expr("a ** 2 * b", at(0)), Ok((mult(pow(var("a"), 2), var("b")), "", at(10))));
    assert_eq!(parse_expr("a + (b ** 2)", at(0)), Ok((add(var("a"), pow(var("b"), 2)), "", at(12))));
    assert_eq!(parse_expr("a - b ** 2 + c", at(0)),
        Ok((add(pow(sub(var("a"), var("b")), 2), var("c")), "", at(14))));
}

#[test]
fn conditional_inside_arithmetic() {
    let inner = choice(var("a"), var("b"), num(1), num(2));
    assert_eq!(parse_expr("2 * if a < b then 1 else 2 fi + 3", at(0)),
        Ok((mult(num(2), add(inner, num(3))), "", at(33))));
    let nested = choice(num(1), num(2), choice(var("a"), var("b"), var("c"), var("d")), num(0));
    assert_eq!(parse_expr("if 1 < 2 then if a < b then c else d fi else 0 fi", at(0)),
        Ok((nested, "", at(49))));
    let grouped = choice(var("a"), var("b"), num(1), num(2));
    assert_eq!(parse_expr("(if a < b then 1 else 2 fi )", at(0)), Ok((grouped, "", at(28))));
}

#[test]
fn conditional_directly() {
    let tree = choice(add(var("a"), num(1)), var("b"), var("x"), var("y"));
    assert_eq!(parse_if_then_else("if a + 1 < b then x else y fi", at(0)), Ok((tree, "", at(29))));
    let err = parse_if_then_else("a < b", at(3)).unwrap_err();
    assert_eq!(err, SyntaxError { kind: ErrorKind::ExpectedIf, pos: at(3), found: Some(Token::Ide("a".to_string())) });
    let err = parse_if_then_else("if a < b then 1 else 2 fi)", at(0)).unwrap_err();
    assert_eq!(err, SyntaxError { kind: ErrorKind::ExpectedFi, pos: at(22), found: Some(Token::Ide("fi".to_string())) });
}

#[test]
fn comparison_and_branches() {
    assert_eq!(parse_comparison("a < b then", at(0)), Ok(((var("a"), var("b")), " then", at(5))));
    assert_eq!(parse_branches("then 1 else 2 fi + 3", at(0)), Ok(((num(1), num(2)), " + 3", at(16))));
    let err = parse_comparison("a > b", at(0)).unwrap_err();
    assert_eq!(err, SyntaxError { kind: ErrorKind::UnsupportedComparator, pos: at(1), found: Some(Token::Gt) });
    let err = parse_comparison("a == b", at(0)).unwrap_err();
    assert_eq!(err.found, Some(Token::Eqeq));
    let err = parse_comparison("a >= b", at(0)).unwrap_err();
    assert_eq!(err.kind, ErrorKind::UnsupportedComparator);
    let err = parse_comparison("a", at(0)).unwrap_err();
    assert_eq!(err, SyntaxError { kind: ErrorKind::ExpectedComparator, pos: at(1), found: None });
}

#[test]
fn keywords_comparator_and_literal() {
    assert_eq!(expect(" )x", at(0), Token::Close, ErrorKind::ExpectedClose), Ok(((), "x", at(2))));
    let err = expect(" (x", at(0), Token::Close, ErrorKind::ExpectedClose).unwrap_err();
    assert_eq!(err, SyntaxError { kind: ErrorKind::ExpectedClose, pos: at(0), found: Some(Token::Open) });
    let err = expect("#", at(0), Token::Close, ErrorKind::ExpectedClose).unwrap_err();
    assert_eq!(err.kind, ErrorKind::UnexpectedCharacter('#'));
    assert_eq!(parse_less_than("< b", at(0)), Ok(((), " b", at(1))));
    assert_eq!(parse_literal(" 10)", at(0)), Ok((num(10), ")", at(3))));
    let err = parse_literal("(10)", at(0)).unwrap_err();
    assert_eq!(err, SyntaxError { kind: ErrorKind::ExpectedNumber, pos: at(0), found: Some(Token::Open) });
    assert_eq!(seen(Some((Token::Fi, "", at(0)))), Some(Token::Fi));
    assert_eq!(seen(None), None);
}

#[test]
fn continuations() {
    assert_eq!(parse_term1(var("a"), " * b + c", at(1)), Ok((mult(var("a"), var("b")), " + c", at(5))));
    assert_eq!(parse_term1(var("a"), " + c", at(1)), Ok((var("a"), " + c", at(1))));
    assert_eq!(parse_expr1(var("a"), " + b * c )", at(1)),
        Ok((add(var("a"), mult(var("b"), var("c"))), " )", at(9))));
    assert_eq!(parse_expr1(var("a"), " * b", at(1)), Ok((var("a"), " * b", at(1))));
    assert_eq!(parse_expr1(var("a"), "", at(1)), Ok((var("a"), "", at(1))));
    assert_eq!(parse_tail(var("a"), " * b - c", at(1)), Ok((sub(mult(var("a"), var("b")), var("c")), "", at(9))));
}

#[test]
fn factor_is_its_primary_alone() {
    assert_eq!(parse_factor("b + c", at(0)), Ok((var("b"), " + c", at(1))));
    assert_eq!(parse_factor("b ** 2", at(0)), Ok((var("b"), " ** 2", at(1))));
    assert_eq!(parse_factor1(var("b"), " * c ** 2 + d", at(1)), Ok((var("b"), " * c ** 2 + d", at(1))));
    assert_eq!(parse_term("b * c + d", at(0)), Ok((mult(var("b"), var("c")), " + d", at(5))));
}

#[test]
fn fault_in_what_a_factor_reads_ahead() {
    let err = parse_factor("b + c + (", at(0)).unwrap_err();
    assert_eq!(err, SyntaxError { kind: ErrorKind::ExpectedOperand, pos: at(9), found: None });
    let err = parse_term("b ** c", at(0)).unwrap_err();
    assert_eq!(err, SyntaxError { kind: ErrorKind::ExpectedNumber, pos: at(4), found: Some(Token::Ide("c".to_string())) });
}

#[test]
fn copies_of_trees() {
    let tree = choice(var("a"), num(2), pow(add(var("a"), num(1)), 2), div(num(1), mult(var("b"), num(3))));
    assert_eq!(tree.clone(), tree);
    assert_eq!(tree.duplicate(), tree);
    let condition = Condition::Ge(var("a"), sub(num(1), num(2)));
    assert_eq!(condition.clone(), condition);
}
