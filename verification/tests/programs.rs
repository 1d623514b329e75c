use expr_parser::ast::{Expression, Parameter, Prog, Statement};
use expr_parser::error::{ErrorKind, SyntaxError};
use expr_parser::position::Position;
use expr_parser::program::{
    assemble, check_structure, line_is_signature, line_is_skipped, parse_body, parse_program,
    parse_signature, read_signature, ProgramError,
};
use expr_parser::signature::{capture_of, parameters, ARGUMENTS_PATTERN, SIGNATURE_PATTERN};
use expr_parser::token::Token;

fn lines(text: &[&str]) -> Vec<String> {
    text.iter().map(|line| line.to_string()).collect()
}

fn parameter(name: &str) -> Parameter {
    Parameter { id: name.to_string() }
}

fn variable(name: &str) -> Expression {
    Expression::VariableReference(name.to_string())
}

#[test]
fn program_with_comments_and_empty_lines() {
    let text = lines(&[
        "// adds two numbers",
        "",
        "def main(a, b):",
        "  // the sum",
        "  x = a + b",
        "",
        "  return x",
    ]);
    let expected = Prog {
        id: "main".to_string(),
        arguments: vec![parameter("a"), parameter("b")],
        statements: vec![
            Statement::Definition(
                "x".to_string(),
                Expression::Add(Box::new(variable("a")), Box::new(variable("b"))),
            ),
            Statement::Return(variable("x")),
        ],
    };
    assert_eq!(parse_program(&text), Ok(expected));
}

#[test]
fn program_whose_last_statement_is_a_definition_is_rejected() {
    let text = lines(&["def main(a):", "x = a", "y = x"]);
    assert_eq!(parse_program(&text), Err(ProgramError::LastNotReturn));
}

#[test]
fn program_without_statements_is_rejected() {
    assert_eq!(parse_program(&lines(&["def main(a):"])), Err(ProgramError::NoStatements));
    let text = lines(&["def main(a):", "// nothing", ""]);
    assert_eq!(parse_program(&text), Err(ProgramError::NoStatements));
}

#[test]
fn return_before_the_last_statement_is_rejected() {
    let text = lines(&["def main(a):", "return a", "return a"]);
    assert_eq!(parse_program(&text), Err(ProgramError::MisplacedReturn));
}

#[test]
fn text_without_signature() {
    assert_eq!(parse_program(&lines(&[])), Err(ProgramError::MissingSignature));
    assert_eq!(parse_program(&lines(&["", " // only this"])), Err(ProgramError::MissingSignature));
}

#[test]
fn statement_before_the_signature() {
    let text = lines(&["// first", "x = 1", "def main(a):", "return a"]);
    assert_eq!(parse_program(&text), Err(ProgramError::OutsideFunction(2)));
    assert_eq!(parse_program(&lines(&["  "])), Err(ProgramError::OutsideFunction(1)));
}

#[test]
fn signature_of_the_wrong_form() {
    let text = lines(&["", "def f(a):", "return a"]);
    assert_eq!(parse_program(&text), Err(ProgramError::BadSignature(2)));
    assert_eq!(parse_program(&lines(&["def main():"])), Err(ProgramError::BadSignature(1)));
    assert_eq!(parse_program(&lines(&["def main(a)"])), Err(ProgramError::BadSignature(1)));
    assert_eq!(parse_program(&lines(&["define"])), Err(ProgramError::BadSignature(1)));
}

#[test]
fn syntax_error_carries_the_number_of_its_line() {
    let text = lines(&["def main(a):", "// note", "x = (1 + 2", "return x"]);
    let expected = SyntaxError {
        kind: ErrorKind::ExpectedClose,
        pos: Position { line: 3, col: 10 },
        found: None,
    };
    assert_eq!(parse_program(&text), Err(ProgramError::Syntax(expected)));
}

#[test]
fn first_faulty_line_is_reported() {
    let text = lines(&["def main(a):", "x = ", "y = )", "a"]);
    let expected = SyntaxError {
        kind: ErrorKind::ExpectedOperand,
        pos: Position { line: 2, col: 3 },
        found: None,
    };
    assert_eq!(parse_program(&text), Err(ProgramError::Syntax(expected)));
}

#[test]
fn line_of_blanks_holds_no_statement() {
    let text = lines(&["def main(a):", "   ", "return a"]);
    let expected = SyntaxError {
        kind: ErrorKind::ExpectedStatement,
        pos: Position { line: 2, col: 0 },
        found: None,
    };
    assert_eq!(parse_program(&text), Err(ProgramError::Syntax(expected)));
}

#[test]
fn second_signature_is_no_statement() {
    let text = lines(&["def main(a):", "def other(b):", "return a"]);
    let expected = SyntaxError {
        kind: ErrorKind::ExpectedAssign,
        pos: Position { line: 2, col: 9 },
        found: Some(Token::Ide("other".to_string())),
    };
    assert_eq!(parse_program(&text), Err(ProgramError::Syntax(expected)));
}

#[test]
fn signature_gives_name_and_parameters() {
    let (id, arguments) = parse_signature("def sum3(a,b,  c ):", 9).unwrap();
    assert_eq!(id, "sum3");
    assert_eq!(arguments, vec![parameter("a"), parameter("b"), parameter("c")]);
    assert_eq!(parse_signature("def sum3(A):", 9), Err(ProgramError::BadSignature(9)));
}

#[test]
fn captures_of_the_pattern_engine() {
    assert_eq!(
        capture_of(SIGNATURE_PATTERN, "id", "def main(a, b):"),
        Some(Some("main".to_string()))
    );
    assert_eq!(
        capture_of(ARGUMENTS_PATTERN, "args", "def main( a, b ):"),
        Some(Some("a, b".to_string()))
    );
    assert_eq!(capture_of(SIGNATURE_PATTERN, "id", "main(a, b):"), Some(None));
    assert_eq!(capture_of(SIGNATURE_PATTERN, "name", "def main(a, b):"), Some(None));
    assert_eq!(capture_of("(a|(?P<x>b))", "x", "a"), Some(None));
    assert_eq!(capture_of("(unclosed", "id", "def main(a, b):"), None);
}

#[test]
fn parameters_are_the_pieces_between_commas() {
    assert_eq!(parameters("a, b"), vec![parameter("a"), parameter("b")]);
    assert_eq!(parameters("a"), vec![parameter("a")]);
    assert_eq!(parameters(" a\t,b ,c"), vec![parameter("a"), parameter("b"), parameter("c")]);
    assert_eq!(parameters(""), vec![parameter("")]);
    assert_eq!(parameters("a,,b,"), vec![parameter("a"), parameter(""), parameter("b"), parameter("")]);
    assert_eq!(parameters("a,\nb"), vec![parameter("a"), parameter("\nb")]);
}

#[test]
fn lines_that_are_passed_over() {
    assert!(line_is_skipped(""));
    assert!(line_is_skipped("// note"));
    assert!(line_is_skipped("   \t// note"));
    assert!(line_is_skipped("\u{a0}//"));
    assert!(!line_is_skipped("  "));
    assert!(!line_is_skipped("x = 1 // note"));
    assert!(!line_is_skipped("/ / note"));
    assert!(!line_is_skipped("/"));
}

#[test]
fn lines_that_start_like_a_signature() {
    assert!(line_is_signature("def main(a):"));
    assert!(line_is_signature("define"));
    assert!(!line_is_signature(" def main(a):"));
    assert!(!line_is_signature("de"));
}

#[test]
fn body_from_a_given_line() {
    let text = lines(&["x = 1", "return x", "// end"]);
    let all = parse_body(&text, 0).unwrap();
    assert_eq!(
        all,
        vec![
            Statement::Definition("x".to_string(), Expression::NumberLiteral(1)),
            Statement::Return(variable("x")),
        ]
    );
    assert_eq!(parse_body(&text, 1).unwrap(), vec![Statement::Return(variable("x"))]);
    assert_eq!(parse_body(&text, 2).unwrap(), vec![]);
    assert_eq!(parse_body(&text, 3).unwrap(), vec![]);
    assert_eq!(parse_body(&text, 9).unwrap(), vec![]);
}

#[test]
fn structure_of_the_statements() {
    let definition = || Statement::Definition("x".to_string(), Expression::NumberLiteral(1));
    let result = || Statement::Return(variable("x"));
    assert_eq!(check_structure(&vec![]), Some(ProgramError::NoStatements));
    assert_eq!(check_structure(&vec![result()]), None);
    assert_eq!(check_structure(&vec![definition(), definition(), result()]), None);
    assert_eq!(check_structure(&vec![definition()]), Some(ProgramError::LastNotReturn));
    assert_eq!(check_structure(&vec![result(), definition()]), Some(ProgramError::LastNotReturn));
    assert_eq!(
        check_structure(&vec![definition(), result(), result()]),
        Some(ProgramError::MisplacedReturn)
    );
}

#[test]
fn program_from_its_parts() {
    let text = lines(&["ignored", "return a"]);
    let program = assemble("main".to_string(), vec![parameter("a")], &text, 1).unwrap();
    assert_eq!(
        program,
        Prog {
            id: "main".to_string(),
            arguments: vec![parameter("a")],
            statements: vec![Statement::Return(variable("a"))],
        }
    );
    assert_eq!(
        assemble("main".to_string(), vec![], &text, 2),
        Err(ProgramError::NoStatements)
    );
}

#[test]
fn signature_from_what_was_captured() {
    let part = |text: &str| Some(Some(text.to_string()));
    assert_eq!(
        read_signature(part("main"), part("a, b"), 4),
        Ok(("main".to_string(), vec![parameter("a"), parameter("b")]))
    );
    assert_eq!(read_signature(None, part("a"), 4), Err(ProgramError::BadPattern));
    assert_eq!(read_signature(None, None, 4), Err(ProgramError::BadPattern));
    assert_eq!(read_signature(part("main"), None, 4), Err(ProgramError::BadPattern));
    assert_eq!(read_signature(Some(None), part("a"), 4), Err(ProgramError::BadSignature(4)));
    assert_eq!(read_signature(Some(None), None, 4), Err(ProgramError::BadSignature(4)));
    assert_eq!(read_signature(part("main"), Some(None), 4), Err(ProgramError::BadArguments(4)));
}

#[test]
fn copies_of_programs_and_errors() {
    let text = lines(&["def main(a, b):", "x = a * b", "return x ** 2"]);
    let program = parse_program(&text).unwrap();
    assert_eq!(program.clone(), program);
    assert_eq!(program.statements[0].clone(), program.statements[0]);
    assert_eq!(program.arguments[1].clone(), parameter("b"));
    let error = ProgramError::Syntax(SyntaxError {
        kind: ErrorKind::ExpectedClose,
        pos: Position { line: 3, col: 10 },
        found: Some(Token::Ide("x".to_string())),
    });
    assert_eq!(error.clone(), error);
    assert_eq!(ProgramError::BadArguments(3).clone(), ProgramError::BadArguments(3));
    assert_eq!(Token::Num(5).clone(), Token::Num(5));
    assert_eq!(Token::Pow.clone(), Token::Pow);
}
