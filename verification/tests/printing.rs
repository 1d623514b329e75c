use expr_parser::ast::{Condition, Expression, Statement};
use expr_parser::parser::parse_expr;
use expr_parser::position::Position;
use expr_parser::statement::parse_statement;

fn start() -> Position {
    Position { line: 1, col: 0 }
}

fn num(n: i32) -> Box<Expression> {
    Box::new(Expression::NumberLiteral(n))
}

fn var(name: &str) -> Box<Expression> {
    Box::new(Expression::VariableReference(name.to_string()))
}

fn reparsed(line: &str) -> (Statement, String) {
    let (first, _, _) = parse_statement(line, start()).unwrap();
    let text = first.render();
    let (second, rest, pos) = parse_statement(&text, start()).unwrap();
    assert_eq!(second, first);
    assert_eq!(rest, "");
    assert_eq!(pos.col, text.chars().count());
    (first, text)
}

#[test]
fn atoms_between_parentheses() {
    assert_eq!(Expression::NumberLiteral(12).render(), "(12)");
    assert_eq!(Expression::VariableReference("x1".to_string()).render(), "(x1)");
    assert_eq!(Expression::NumberLiteral(-3).render(), "(-3)");
}

#[test]
fn operations_between_parentheses() {
    assert_eq!(Expression::Add(num(1), var("a")).render(), "((1)+(a))");
    assert_eq!(Expression::Sub(num(1), var("a")).render(), "((1)-(a))");
    assert_eq!(Expression::Mult(num(1), var("a")).render(), "((1)*(a))");
    assert_eq!(Expression::Div(num(1), var("a")).render(), "((1)/(a))");
    assert_eq!(Expression::Pow(var("a"), num(2)).render(), "((a)**2)");
    assert_eq!(Expression::Pow(var("a"), var("b")).render(), "((a)**(b))");
}

#[test]
fn conditionals_with_their_keywords() {
    let e = |c: Condition| Expression::IfElse(Box::new(c), num(1), num(2)).render();
    let a = || Expression::VariableReference("a".to_string());
    let b = || Expression::VariableReference("b".to_string());
    assert_eq!(e(Condition::Lt(a(), b())), "(if (a)<(b)then (1)else (2)fi )");
    assert_eq!(e(Condition::Le(a(), b())), "(if (a)<=(b)then (1)else (2)fi )");
    assert_eq!(e(Condition::Eq(a(), b())), "(if (a)==(b)then (1)else (2)fi )");
    assert_eq!(e(Condition::Ge(a(), b())), "(if (a)>=(b)then (1)else (2)fi )");
    assert_eq!(e(Condition::Gt(a(), b())), "(if (a)>(b)then (1)else (2)fi )");
}

#[test]
fn statements_on_one_line() {
    let definition = Statement::Definition("x".to_string(), Expression::NumberLiteral(1));
    assert_eq!(definition.render(), "x=(1)");
    let result = Statement::Return(Expression::VariableReference("x".to_string()));
    assert_eq!(result.render(), "return (x)");
}

#[test]
fn what_is_parsed_is_read_back() {
    assert_eq!(reparsed("x = 2 + 3 * 4").1, "x=((2)+((3)*(4)))");
    assert_eq!(reparsed("x = 2 * 3 * 4").1, "x=((2)*((3)*(4)))");
    assert_eq!(reparsed("x = 2 + 3 ** 2").1, "x=(((2)+(3))**2)");
    assert_eq!(reparsed("return a - b - c / d").1, "return (((a)-(b))-((c)/(d)))");
    assert_eq!(
        reparsed("x = if a < b then 1 else 2 fi").1,
        "x=(if (a)<(b)then (1)else (2)fi )"
    );
    reparsed("return 2 * if a + 1 < b ** 2 then if c < d then 1 else 2 fi else (x) fi + 3 ** 4");
    reparsed("y = ((((a))))");
    reparsed("y = 0 / 2147483647");
}

#[test]
fn names_spelled_like_keywords_are_read_back() {
    assert_eq!(reparsed("x = if").1, "x=(if)");
    assert_eq!(reparsed("return=(fi)").1, "return=(fi)");
    assert_eq!(reparsed("then=else+return").1, "then=((else)+(return))");
    assert_eq!(
        reparsed("x = if (then)<(else) then (fi) else (if) fi").1,
        "x=(if (then)<(else)then (fi)else (if)fi )"
    );
}

#[test]
fn text_of_an_expression_is_read_to_its_end() {
    let (tree, _, _) = parse_expr("a * (b - 1) ** 3 + c", start()).unwrap();
    let text = tree.render();
    assert_eq!(text, "((((a)*((b)-(1)))**3)+(c))");
    assert_eq!(parse_expr(&text, start()), Ok((tree, "", Position { line: 1, col: 26 })));
}
