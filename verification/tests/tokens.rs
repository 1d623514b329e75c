use expr_parser::error::{ErrorKind, SyntaxError};
use expr_parser::lexer::{next_token, parse_ide, parse_num, skip_whitespaces};
use expr_parser::position::Position;
use expr_parser::text::{has_prefix, scan, CharClass};
use expr_parser::token::Token;

fn at(col: usize) -> Position {
    Position { line: 4, col }
}

fn token_of(input: &str) -> (Token, String, usize) {
    let (token, rest, pos) = next_token(input, at(0)).unwrap().unwrap();
    assert_eq!(pos.line, 4);
    (token, rest.to_string(), pos.col)
}

#[test]
fn no_token_in_an_empty_text() {
    assert_eq!(next_token("", at(0)), Ok(None));
    assert_eq!(next_token("", at(17)), Ok(None));
}

#[test]
fn no_token_in_blanks() {
    assert_eq!(next_token(" \t  ", at(0)), Ok(None));
}

#[test]
fn punctuation_and_operators() {
    assert_eq!(token_of("(x"), (Token::Open, "x".to_string(), 1));
    assert_eq!(token_of(")"), (Token::Close, "".to_string(), 1));
    assert_eq!(token_of("+1"), (Token::Add, "1".to_string(), 1));
    assert_eq!(token_of("-1"), (Token::Sub, "1".to_string(), 1));
    assert_eq!(token_of("/ 1"), (Token::Div, " 1".to_string(), 1));
    assert_eq!(token_of("* 1"), (Token::Mult, " 1".to_string(), 1));
    assert_eq!(token_of("= 1"), (Token::Eq, " 1".to_string(), 1));
    assert_eq!(token_of("< 1"), (Token::Lt, " 1".to_string(), 1));
    assert_eq!(token_of("> 1"), (Token::Gt, " 1".to_string(), 1));
}

#[test]
fn two_characters_before_one() {
    assert_eq!(token_of("==1"), (Token::Eqeq, "1".to_string(), 2));
    assert_eq!(token_of("<=1"), (Token::Le, "1".to_string(), 2));
    assert_eq!(token_of(">=1"), (Token::Ge, "1".to_string(), 2));
    assert_eq!(token_of("**2"), (Token::Pow, "2".to_string(), 2));
    assert_eq!(token_of("***"), (Token::Pow, "*".to_string(), 2));
    assert_eq!(token_of("=<"), (Token::Eq, "<".to_string(), 1));
    assert_eq!(token_of("*"), (Token::Mult, "".to_string(), 1));
}

#[test]
fn leading_blanks_count_as_columns() {
    assert_eq!(token_of("  \t+ 1"), (Token::Add, " 1".to_string(), 4));
    let (token, rest, pos) = next_token("   abc9 = 1", at(10)).unwrap().unwrap();
    assert_eq!(token, Token::Ide("abc9".to_string()));
    assert_eq!(rest, " = 1");
    assert_eq!(pos, Position { line: 4, col: 17 });
}

#[test]
fn keywords_take_their_blank() {
    assert_eq!(token_of("return x"), (Token::Return, "x".to_string(), 7));
    assert_eq!(token_of("if a"), (Token::If, "a".to_string(), 3));
    assert_eq!(token_of("then a"), (Token::Then, "a".to_string(), 5));
    assert_eq!(token_of("else a"), (Token::Else, "a".to_string(), 5));
}

#[test]
fn closing_keyword_in_the_line_and_at_its_end() {
    assert_eq!(token_of("fi + 1"), (Token::Fi, " + 1".to_string(), 2));
    assert_eq!(token_of("fi"), (Token::Fi, "".to_string(), 2));
    assert_eq!(token_of(" fi"), (Token::Fi, "".to_string(), 3));
}

#[test]
fn keyword_without_its_blank_is_a_name() {
    assert_eq!(token_of("return"), (Token::Ide("return".to_string()), "".to_string(), 6));
    assert_eq!(token_of("if("), (Token::Ide("if".to_string()), "(".to_string(), 2));
    assert_eq!(token_of("fi)"), (Token::Ide("fi".to_string()), ")".to_string(), 2));
    assert_eq!(token_of("iffy "), (Token::Ide("iffy".to_string()), " ".to_string(), 4));
    assert_eq!(token_of("then"), (Token::Ide("then".to_string()), "".to_string(), 4));
}

#[test]
fn numerals_are_longest_runs_of_digits() {
    assert_eq!(token_of("123abc"), (Token::Num(123), "abc".to_string(), 3));
    assert_eq!(token_of("007"), (Token::Num(7), "".to_string(), 3));
    assert_eq!(token_of("0"), (Token::Num(0), "".to_string(), 1));
    assert_eq!(token_of("2147483647+"), (Token::Num(2147483647), "+".to_string(), 10));
}

#[test]
fn numeral_too_large() {
    let expected = SyntaxError { kind: ErrorKind::NumberTooLarge, pos: at(2), found: None };
    assert_eq!(next_token("  2147483648", at(0)), Err(expected));
    let expected = SyntaxError { kind: ErrorKind::NumberTooLarge, pos: at(0), found: None };
    assert_eq!(next_token("99999999999999999999999999", at(0)), Err(expected));
}

#[test]
fn names_are_a_letter_and_letters_or_digits() {
    assert_eq!(token_of("a1b2 c"), (Token::Ide("a1b2".to_string()), " c".to_string(), 4));
    assert_eq!(token_of("Zed_"), (Token::Ide("Zed".to_string()), "_".to_string(), 3));
    assert_eq!(token_of("x"), (Token::Ide("x".to_string()), "".to_string(), 1));
}

#[test]
fn characters_that_start_no_token() {
    let expected =
        SyntaxError { kind: ErrorKind::UnexpectedCharacter('_'), pos: at(1), found: None };
    assert_eq!(next_token(" _x", at(0)), Err(expected));
    let expected =
        SyntaxError { kind: ErrorKind::UnexpectedCharacter('\n'), pos: at(0), found: None };
    assert_eq!(next_token("\n", at(0)), Err(expected));
    let expected =
        SyntaxError { kind: ErrorKind::UnexpectedCharacter('é'), pos: at(3), found: None };
    assert_eq!(next_token("   é", at(0)), Err(expected));
}

#[test]
fn text_behind_a_name_may_hold_any_character() {
    let (token, rest, pos) = next_token("x é", at(0)).unwrap().unwrap();
    assert_eq!(token, Token::Ide("x".to_string()));
    assert_eq!(rest, " é");
    assert_eq!(pos, at(1));
}

#[test]
fn blanks_are_spaces_and_tabs() {
    assert_eq!(skip_whitespaces(""), 0);
    assert_eq!(skip_whitespaces("x  "), 0);
    assert_eq!(skip_whitespaces(" \t x"), 3);
    assert_eq!(skip_whitespaces("   "), 3);
    assert_eq!(skip_whitespaces(" \nx"), 1);
}

#[test]
fn numeral_scanner() {
    let (token, rest, pos) = parse_num("42 + 1", at(5)).unwrap();
    assert_eq!(token, Token::Num(42));
    assert_eq!(rest, " + 1");
    assert_eq!(pos, at(7));
    let err = parse_num("4294967296", at(5)).unwrap_err();
    assert_eq!(err, SyntaxError { kind: ErrorKind::NumberTooLarge, pos: at(5), found: None });
}

#[test]
fn name_scanner() {
    let (token, rest, pos) = parse_ide("total2*3", at(1));
    assert_eq!(token, Token::Ide("total2".to_string()));
    assert_eq!(rest, "*3");
    assert_eq!(pos, at(7));
}

#[test]
fn runs_and_prefixes() {
    assert_eq!(scan("ab12 c", 0, CharClass::Letter), 2);
    assert_eq!(scan("ab12 c", 0, CharClass::LetterOrDigit), 4);
    assert_eq!(scan("ab12 c", 2, CharClass::Digit), 4);
    assert_eq!(scan("ab12 c", 6, CharClass::Digit), 6);
    assert_eq!(scan("\u{a0}\u{2003}\r\n x", 0, CharClass::Space), 5);
    assert!(has_prefix("a return b", 2, "return "));
    assert!(!has_prefix("a return", 2, "return "));
    assert!(has_prefix("abc", 3, ""));
    assert!(CharClass::Space.contains('\u{3000}'));
    assert!(!CharClass::Space.contains('\u{200b}'));
    assert!(!CharClass::Blank.contains('\n'));
}

#[test]
fn same_tokens() {
    assert!(Token::Fi.same(&Token::Fi));
    assert!(!Token::Fi.same(&Token::If));
    assert!(Token::Ide("a".to_string()).same(&Token::Ide("a".to_string())));
    assert!(!Token::Ide("a".to_string()).same(&Token::Ide("b".to_string())));
    assert!(Token::Num(3).same(&Token::Num(3)));
    assert!(!Token::Num(3).same(&Token::Num(4)));
    assert!(!Token::Num(3).same(&Token::Ide("3".to_string())));
}
