//! The tokenizer: from the text that remains to its first token.

use vstd::prelude::*;
use vstd::string::*;
use crate::error::{ErrorKind, Fault, SyntaxError, SyntaxErrorSpec};
use crate::position::Position;
use crate::text::{decimal, has_prefix, lemma_decimal_grows, lemma_run_is_maximal, run, scan, CharClass};
use crate::token::{Token, TokenSpec};

verus! {

/// The numeral that `t` starts with and its length: the longest run of
/// digits, read in base ten.
pub open spec fn numeral(t: Seq<char>) -> Result<(TokenSpec, nat), ErrorKind> {
    let n = run(t, CharClass::Digit);
    let value = decimal(t.take(n as int));
    if value <= i32::MAX {
        Ok((TokenSpec::Num(value), n))
    } else {
        Err(ErrorKind::NumberTooLarge)
    }
}

/// The identifier that `t` starts with and its length: the first character
/// and the longest run of letters and digits behind it.
pub open spec fn identifier(t: Seq<char>) -> (TokenSpec, nat) {
    let n = 1 + run(t.skip(1), CharClass::LetterOrDigit);
    (TokenSpec::Ide(t.take(n as int)), n)
}

/// The token that `t` starts with and the number of characters it takes up,
/// for a `t` that is not empty. The rules apply in this order: punctuation
/// and operators, the two-character ones before their one-character
/// prefixes; the keywords, each but `fi` with the space that must follow it;
/// numerals; identifiers.
pub open spec fn symbol(t: Seq<char>) -> Result<(TokenSpec, nat), ErrorKind> {
    let c = t[0];
    let twice = t.len() > 1 && t[1] == c;
    let equals = t.len() > 1 && t[1] == '=';
    if c == '(' {
        Ok((TokenSpec::Open, 1))
    } else if c == ')' {
        Ok((TokenSpec::Close, 1))
    } else if c == '=' {
        if equals { Ok((TokenSpec::Eqeq, 2)) } else { Ok((TokenSpec::Eq, 1)) }
    } else if c == '<' {
        if equals { Ok((TokenSpec::Le, 2)) } else { Ok((TokenSpec::Lt, 1)) }
    } else if c == '>' {
        if equals { Ok((TokenSpec::Ge, 2)) } else { Ok((TokenSpec::Gt, 1)) }
    } else if c == '+' {
        Ok((TokenSpec::Add, 1))
    } else if c == '-' {
        Ok((TokenSpec::Sub, 1))
    } else if c == '*' {
        if twice { Ok((TokenSpec::Pow, 2)) } else { Ok((TokenSpec::Mult, 1)) }
    } else if c == '/' {
        Ok((TokenSpec::Div, 1))
    } else if "return "@.is_prefix_of(t) {
        Ok((TokenSpec::Return, 7))
    } else if "if "@.is_prefix_of(t) {
        Ok((TokenSpec::If, 3))
    } else if "then "@.is_prefix_of(t) {
        Ok((TokenSpec::Then, 5))
    } else if "else "@.is_prefix_of(t) {
        Ok((TokenSpec::Else, 5))
    } else if "fi "@.is_prefix_of(t) || t == "fi"@ {
        Ok((TokenSpec::Fi, 2))
    } else if CharClass::Digit.holds(c) {
        numeral(t)
    } else if CharClass::Letter.holds(c) {
        Ok(identifier(t))
    } else {
        Err(ErrorKind::UnexpectedCharacter(c))
    }
}

/// The first token of `s` and the number of characters up to its end,
/// leading blanks included; `None` where only blanks are left. A tokenizer
/// fault points at the character at which the token would start.
#[verifier::opaque]
pub open spec fn token(s: Seq<char>) -> Result<Option<(TokenSpec, nat)>, Fault> {
    let blanks = run(s, CharClass::Blank);
    let t = s.skip(blanks as int);
    if t.len() == 0 {
        Ok(None)
    } else {
        match symbol(t) {
            Ok((tok, n)) => Ok(Some((tok, blanks + n))),
            Err(kind) => Err(Fault { kind, at: blanks, found: None }),
        }
    }
}

/// A token takes up at least one character and ends inside the text.
pub proof fn lemma_symbol_consumes(t: Seq<char>)
    requires
        t.len() > 0,
    ensures
        symbol(t) matches Ok((_, n)) ==> 1 <= n <= t.len(),
{
    reveal_strlit("return ");
    reveal_strlit("if ");
    reveal_strlit("then ");
    reveal_strlit("else ");
    reveal_strlit("fi ");
    reveal_strlit("fi");
    lemma_run_is_maximal(t, CharClass::Digit);
    lemma_run_is_maximal(t.skip(1), CharClass::LetterOrDigit);
}

/// A token takes up at least one character and ends inside the text, and a
/// fault lies inside the text.
pub proof fn lemma_token_consumes(s: Seq<char>)
    ensures
        token(s) matches Ok(Some((_, n))) ==> 1 <= n <= s.len(),
        token(s) matches Err(f) ==> f.at < s.len(),
{
    reveal(token);
    lemma_run_is_maximal(s, CharClass::Blank);
    let t = s.skip(run(s, CharClass::Blank) as int);
    if t.len() > 0 {
        lemma_symbol_consumes(t);
    }
}

/// Whether the outcome `r` of a tokenizer step on `input` at `pos` is the
/// outcome `m` that the grammar gives: the same token, the text behind it,
/// and the position moved by the characters used up; or the same fault,
/// inside the text and placed from `pos`.
pub open spec fn lexed_as(
    r: Result<Option<(Token, &str, Position)>, SyntaxError>,
    m: Result<Option<(TokenSpec, nat)>, Fault>,
    input: Seq<char>,
    pos: Position,
) -> bool {
    match m {
        Ok(Some((tok, n))) => r matches Ok(Some((t, rest, p))) && t@ == tok && n <= input.len()
            && rest@ == input.skip(n as int) && p == pos.advance(n),
        Ok(None) => r matches Ok(None),
        Err(f) => r matches Err(e) && f.at <= input.len() && e@ == f.located(pos),
    }
}

/// The number of blanks that `input` starts with.
pub fn skip_whitespaces(input: &str) -> (n: usize)
    ensures
        n == run(input@, CharClass::Blank),
        n <= input@.len(),
{
    assert(input@.skip(0) =~= input@);
    scan(input, 0, CharClass::Blank)
}

/// Reads the numeral that `input` starts with. The caller has seen that the
/// first character is a digit.
pub fn parse_num<'a>(input: &'a str, pos: Position) -> (r: Result<
    (Token, &'a str, Position),
    SyntaxError,
>)
    requires
        input@.len() > 0,
        CharClass::Digit.holds(input@[0]),
        pos.fits(input@.len()),
    ensures
        match numeral(input@) {
            Ok((tok, n)) => r matches Ok((t, rest, p)) && t@ == tok && 1 <= n <= input@.len()
                && rest@ == input@.skip(n as int) && p == pos.advance(n),
            Err(kind) => r matches Err(e) && e@ == (SyntaxErrorSpec { kind, pos, found: None }),
        },
{
    assert(input@.skip(0) =~= input@);
    let end: usize = scan(input, 0, CharClass::Digit);
    let ghost digits = input@.take(end as int);
    proof {
        lemma_run_is_maximal(input@, CharClass::Digit);
        assert forall|k: int| 0 <= k < digits.len() implies CharClass::Digit.holds(
            #[trigger] digits[k],
        ) by {
            assert(digits[k] == input@[k]);
        }
    }
    let mut value: i64 = 0;
    let mut j: usize = 0;
    while j < end
        invariant
            j <= end <= input@.len(),
            end == run(input@, CharClass::Digit),
            digits == input@.take(end as int),
            forall|k: int| 0 <= k < digits.len() ==> CharClass::Digit.holds(#[trigger] digits[k]),
            value == decimal(digits.take(j as int)),
            0 <= value <= i32::MAX,
        decreases end - j,
    {
        let c: char = input.get_char(j);
        proof {
            assert(digits[j as int] == c);
            assert(digits.take(j + 1).drop_last() =~= digits.take(j as int));
            assert(digits.take(j + 1).last() == c);
        }
        let d: i64 = (c as u32 - '0' as u32) as i64;
        value = value * 10 + d;
        j = j + 1;
        assert(value == decimal(digits.take(j as int)));
        if value > 2147483647 {
            proof {
                lemma_decimal_grows(digits, j as int, end as int);
                assert(digits.take(end as int) =~= digits);
            }
            return Err(SyntaxError { kind: ErrorKind::NumberTooLarge, pos, found: None });
        }
    }
    assert(digits.take(end as int) =~= digits);
    let n: usize = input.unicode_len();
    Ok((Token::Num(value as i32), input.substring_char(end, n), pos.forward(end)))
}

/// Reads the identifier that `input` starts with. The caller has seen that
/// the first character is a letter.
pub fn parse_ide<'a>(input: &'a str, pos: Position) -> (r: (Token, &'a str, Position))
    requires
        input@.len() > 0,
        CharClass::Letter.holds(input@[0]),
        pos.fits(input@.len()),
    ensures
        r.0@ == identifier(input@).0,
        1 <= identifier(input@).1 <= input@.len(),
        r.1@ == input@.skip(identifier(input@).1 as int),
        r.2 == pos.advance(identifier(input@).1),
{
    let end: usize = scan(input, 1, CharClass::LetterOrDigit);
    let n: usize = input.unicode_len();
    let name = input.substring_char(0, end).to_owned();
    (Token::Ide(name), input.substring_char(end, n), pos.forward(end))
}

/// The first token of `input`, the text behind it and the position there;
/// `None` when no token is left.
pub fn next_token<'a>(input: &'a str, pos: Position) -> (r: Result<
    Option<(Token, &'a str, Position)>,
    SyntaxError,
>)
    requires
        pos.fits(input@.len()),
    ensures
        lexed_as(r, token(input@), input@, pos),
{
    proof {
        reveal(token);
    }
    let n: usize = input.unicode_len();
    let offset: usize = skip_whitespaces(input);
    if offset >= n {
        return Ok(None);
    }
    let ghost t = input@.skip(offset as int);
    let c: char = input.get_char(offset);
    let twice: bool = offset + 1 < n && input.get_char(offset + 1) == c;
    let equals: bool = offset + 1 < n && input.get_char(offset + 1) == '=';
    proof {
        assert(t[0] == c);
        if offset + 1 < n {
            assert(t[1] == input@[offset + 1]);
        }
        lemma_symbol_consumes(t);
        reveal_strlit("return ");
        reveal_strlit("if ");
        reveal_strlit("then ");
        reveal_strlit("else ");
        reveal_strlit("fi ");
        reveal_strlit("fi");
    }
    let (tok, width): (Token, usize) = if c == '(' {
        (Token::Open, 1)
    } else if c == ')' {
        (Token::Close, 1)
    } else if c == '=' {
        if equals { (Token::Eqeq, 2) } else { (Token::Eq, 1) }
    } else if c == '<' {
        if equals { (Token::Le, 2) } else { (Token::Lt, 1) }
    } else if c == '>' {
        if equals { (Token::Ge, 2) } else { (Token::Gt, 1) }
    } else if c == '+' {
        (Token::Add, 1)
    } else if c == '-' {
        (Token::Sub, 1)
    } else if c == '*' {
        if twice { (Token::Pow, 2) } else { (Token::Mult, 1) }
    } else if c == '/' {
        (Token::Div, 1)
    } else if has_prefix(input, offset, "return ") {
        (Token::Return, 7)
    } else if has_prefix(input, offset, "if ") {
        (Token::If, 3)
    } else if has_prefix(input, offset, "then ") {
        (Token::Then, 5)
    } else if has_prefix(input, offset, "else ") {
        (Token::Else, 5)
    } else if has_prefix(input, offset, "fi ") || (n - offset == 2 && has_prefix(
        input,
        offset,
        "fi",
    )) {
        assert("fi"@.is_prefix_of(t) && t.len() == 2 ==> t =~= "fi"@);
        (Token::Fi, 2)
    } else {
        let here = pos.forward(offset);
        let tail = input.substring_char(offset, n);
        if CharClass::Digit.contains(c) {
            return match parse_num(tail, here) {
                Ok((tok, rest, p)) => {
                    assert(rest@ =~= input@.skip(offset + numeral(t)->Ok_0.1));
                    Ok(Some((tok, rest, p)))
                },
                Err(e) => Err(e),
            };
        } else if CharClass::Letter.contains(c) {
            let (tok, rest, p) = parse_ide(tail, here);
            assert(rest@ =~= input@.skip(offset + identifier(t).1));
            return Ok(Some((tok, rest, p)));
        } else {
            return Err(
                SyntaxError { kind: ErrorKind::UnexpectedCharacter(c), pos: here, found: None },
            );
        }
    };
    Ok(Some((tok, input.substring_char(offset + width, n), pos.forward(offset + width))))
}

} // verus!
