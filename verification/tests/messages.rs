use expr_parser::error::{ErrorKind, SyntaxError};
use expr_parser::position::Position;
use expr_parser::program::{parse_program, ProgramError};
use expr_parser::statement::parse_statement;
use expr_parser::text::write_number;
use expr_parser::token::Token;

#[test]
fn tokens_as_written() {
    let spelled: Vec<String> = vec![
        Token::Open,
        Token::Close,
        Token::Eq,
        Token::Return,
        Token::If,
        Token::Then,
        Token::Else,
        Token::Fi,
        Token::Lt,
        Token::Le,
        Token::Eqeq,
        Token::Ge,
        Token::Gt,
        Token::Add,
        Token::Sub,
        Token::Mult,
        Token::Div,
        Token::Pow,
    ]
    .iter()
    .map(|t| t.text())
    .collect();
    assert_eq!(
        spelled,
        vec![
            "(", ")", "=", "return", "if", "then", "else", "fi", "<", "<=", "==", ">=", ">", "+",
            "-", "*", "/", "**"
        ]
    );
    assert_eq!(Token::Ide("total2".to_string()).text(), "total2");
    assert_eq!(Token::Num(0).text(), "0");
    assert_eq!(Token::Num(1204).text(), "1204");
    assert_eq!(Token::Num(2147483647).text(), "2147483647");
    assert_eq!(Token::Num(-15).text(), "-15");
    assert_eq!(Token::Num(-2147483648).text(), "-2147483648");
}

#[test]
fn numbers_as_written() {
    let mut out = String::from("n=");
    write_number(&mut out, 0);
    out.push(',');
    write_number(&mut out, 9);
    out.push(',');
    write_number(&mut out, 10);
    out.push(',');
    write_number(&mut out, 18446744073709551615);
    assert_eq!(out, "n=0,9,10,18446744073709551615");
}

#[test]
fn positions_as_written() {
    assert_eq!(Position { line: 3, col: 14 }.text(), "3:14");
    assert_eq!(Position { line: 0, col: 0 }.text(), "0:0");
}

#[test]
fn message_of_a_missing_parenthesis() {
    let err = parse_statement("x = (1 + 2", Position { line: 7, col: 0 }).unwrap_err();
    assert_eq!(err.message(), "Expected `)` at 7:10, got: end of line");
}

#[test]
fn message_of_a_missing_sign() {
    let err = parse_statement("x + 1", Position { line: 1, col: 0 }).unwrap_err();
    assert_eq!(err.message(), "Expected '=' at 1:3, got: '+'");
    let err = parse_statement("x", Position { line: 1, col: 0 }).unwrap_err();
    assert_eq!(err.message(), "Expected '=' at 1:1, got: nothing");
}

#[test]
fn messages_name_what_was_met() {
    let at = Position { line: 2, col: 5 };
    let met = |kind, found| SyntaxError { kind, pos: at, found }.message();
    assert_eq!(
        met(ErrorKind::ExpectedAssign, Some(Token::Add)),
        "Expected '=' at 2:5, got: '+'"
    );
    assert_eq!(
        met(ErrorKind::ExpectedAssign, Some(Token::Ide("y".to_string()))),
        "Expected '=' at 2:5, got: 'y'"
    );
    assert_eq!(met(ErrorKind::ExpectedAssign, None), "Expected '=' at 2:5, got: nothing");
    assert_eq!(
        met(ErrorKind::ExpectedNumber, Some(Token::Ide("b".to_string()))),
        "Expected number at 2:5, got: `b`"
    );
    assert_eq!(
        met(ErrorKind::ExpectedOperand, None),
        "Expected one of `if`, `(`, variable or a number at 2:5, got: end of line"
    );
    assert_eq!(met(ErrorKind::ExpectedIf, Some(Token::Num(3))), "Expected `if` at 2:5, got: `3`");
    assert_eq!(met(ErrorKind::ExpectedThen, Some(Token::Fi)), "Expected `then` at 2:5, got: `fi`");
    assert_eq!(met(ErrorKind::ExpectedElse, None), "Expected `else` at 2:5, got: end of line");
    assert_eq!(met(ErrorKind::ExpectedFi, Some(Token::Pow)), "Expected `fi` at 2:5, got: `**`");
    assert_eq!(
        met(ErrorKind::ExpectedComparator, Some(Token::Then)),
        "Expected a comparator at 2:5, got: `then`"
    );
    assert_eq!(
        met(ErrorKind::UnsupportedComparator, Some(Token::Ge)),
        "Expected `<` at 2:5, got: `>=`"
    );
    assert_eq!(
        met(ErrorKind::ExpectedStatement, Some(Token::Open)),
        "Expected a statement at 2:5, got: `(`"
    );
    assert_eq!(
        met(ErrorKind::TrailingInput, Some(Token::Close)),
        "Expected end of line at 2:5, got: `)`"
    );
    assert_eq!(
        met(ErrorKind::UnexpectedCharacter('$'), None),
        "Expected a token at 2:5, got: `$`"
    );
    assert_eq!(
        met(ErrorKind::NumberTooLarge, None),
        "Expected a number below 2147483648 at 2:5, got: a number out of range"
    );
}

#[test]
fn messages_of_program_errors() {
    assert_eq!(
        ProgramError::MissingSignature.message(),
        "End of file reached without function def"
    );
    assert_eq!(
        ProgramError::OutsideFunction(12).message(),
        "Found statement outside of function on line 12"
    );
    assert_eq!(ProgramError::BadSignature(1).message(), "Wrong definition of function on line 1");
    assert_eq!(
        ProgramError::BadArguments(30).message(),
        "Wrong argument definition in function on line 30"
    );
    assert_eq!(ProgramError::BadPattern.message(), "Pattern of a signature refused");
    assert_eq!(ProgramError::NoStatements.message(), "Error while checking last definition");
    assert_eq!(ProgramError::LastNotReturn.message(), "Last definition not Return");
    assert_eq!(ProgramError::MisplacedReturn.message(), "Return before the last definition");
    let text: Vec<String> =
        vec!["def main(a):".to_string(), "x = a ** a".to_string(), "return x".to_string()];
    let err = parse_program(&text).unwrap_err();
    assert_eq!(err.message(), "Error: Expected number at 2:8, got: `a`");
}
