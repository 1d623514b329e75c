//! How tokens, positions and errors are written out for a reader.

use vstd::prelude::*;
use vstd::string::*;
use crate::error::{ErrorKind, SyntaxError, SyntaxErrorSpec};
use crate::position::Position;
use crate::program::{ProgramError, ProgramErrorSpec};
use crate::text::{numeral_of, write_number};
use crate::token::{Token, TokenSpec};

verus! {

/// The text of the whole number `v`: a minus sign where it is negative, and
/// its digits.
pub open spec fn integer_text(v: int) -> Seq<char> {
    if v < 0 {
        seq!['-'] + numeral_of((-v) as nat)
    } else {
        numeral_of(v as nat)
    }
}

impl TokenSpec {
    /// The token as it is written in a program; a keyword without the blank
    /// that follows it.
    pub open spec fn spelling(self) -> Seq<char> {
        match self {
            TokenSpec::Open => "("@,
            TokenSpec::Close => ")"@,
            TokenSpec::Eq => "="@,
            TokenSpec::Return => "return"@,
            TokenSpec::If => "if"@,
            TokenSpec::Then => "then"@,
            TokenSpec::Else => "else"@,
            TokenSpec::Fi => "fi"@,
            TokenSpec::Lt => "<"@,
            TokenSpec::Le => "<="@,
            TokenSpec::Eqeq => "=="@,
            TokenSpec::Ge => ">="@,
            TokenSpec::Gt => ">"@,
            TokenSpec::Add => "+"@,
            TokenSpec::Sub => "-"@,
            TokenSpec::Mult => "*"@,
            TokenSpec::Div => "/"@,
            TokenSpec::Pow => "**"@,
            TokenSpec::Ide(name) => name,
            TokenSpec::Num(value) => integer_text(value),
        }
    }
}

impl Token {
    /// The token as it is written in a program.
    pub fn text(&self) -> (r: String)
        ensures
            r@ == self@.spelling(),
    {
        match self {
            Token::Open => "(".to_owned(),
            Token::Close => ")".to_owned(),
            Token::Eq => "=".to_owned(),
            Token::Return => "return".to_owned(),
            Token::If => "if".to_owned(),
            Token::Then => "then".to_owned(),
            Token::Else => "else".to_owned(),
            Token::Fi => "fi".to_owned(),
            Token::Lt => "<".to_owned(),
            Token::Le => "<=".to_owned(),
            Token::Eqeq => "==".to_owned(),
            Token::Ge => ">=".to_owned(),
            Token::Gt => ">".to_owned(),
            Token::Add => "+".to_owned(),
            Token::Sub => "-".to_owned(),
            Token::Mult => "*".to_owned(),
            Token::Div => "/".to_owned(),
            Token::Pow => "**".to_owned(),
            Token::Ide(name) => name.clone(),
            Token::Num(value) => {
                let mut out = String::new();
                let wide: i64 = *value as i64;
                if wide < 0 {
                    out.push('-');
                    write_number(&mut out, (-wide) as u64);
                    assert(out@ =~= integer_text(*value as int));
                } else {
                    write_number(&mut out, wide as u64);
                    assert(out@ =~= integer_text(*value as int));
                }
                out
            },
        }
    }
}

impl Position {
    /// The position as it is written: the line, a colon, the column.
    pub open spec fn shown(self) -> Seq<char> {
        numeral_of(self.line as nat) + seq![':'] + numeral_of(self.col as nat)
    }

    /// The position as it is written.
    pub fn text(&self) -> (r: String)
        ensures
            r@ == self.shown(),
    {
        let mut out = String::new();
        write_number(&mut out, self.line as u64);
        out.push(':');
        write_number(&mut out, self.col as u64);
        assert(out@ =~= self.shown());
        out
    }
}

/// What was due where an error of `kind` is met.
pub open spec fn due(kind: ErrorKind) -> Seq<char> {
    match kind {
        ErrorKind::UnexpectedCharacter(_) => "Expected a token"@,
        ErrorKind::NumberTooLarge => "Expected a number below 2147483648"@,
        ErrorKind::ExpectedOperand => "Expected one of `if`, `(`, variable or a number"@,
        ErrorKind::ExpectedClose => "Expected `)`"@,
        ErrorKind::ExpectedIf => "Expected `if`"@,
        ErrorKind::ExpectedComparator => "Expected a comparator"@,
        ErrorKind::UnsupportedComparator => "Expected `<`"@,
        ErrorKind::ExpectedThen => "Expected `then`"@,
        ErrorKind::ExpectedElse => "Expected `else`"@,
        ErrorKind::ExpectedFi => "Expected `fi`"@,
        ErrorKind::ExpectedNumber => "Expected number"@,
        ErrorKind::ExpectedAssign => "Expected '='"@,
        ErrorKind::ExpectedStatement => "Expected a statement"@,
        ErrorKind::TrailingInput => "Expected end of line"@,
    }
}

/// The mark that goes on both sides of a token in the error of `kind`: an
/// apostrophe where `=` was due, a backquote everywhere else.
pub open spec fn mark(kind: ErrorKind) -> char {
    if kind is ExpectedAssign {
        '\''
    } else {
        '`'
    }
}

/// What was met in place of what was due: the token between two marks;
/// without a token, the character that starts none, or a word for what
/// stands there.
pub open spec fn met(kind: ErrorKind, found: Option<TokenSpec>) -> Seq<char> {
    match found {
        Some(t) => seq![mark(kind)] + t.spelling() + seq![mark(kind)],
        None => match kind {
            ErrorKind::UnexpectedCharacter(c) => seq!['`', c, '`'],
            ErrorKind::NumberTooLarge => "a number out of range"@,
            ErrorKind::ExpectedAssign => "nothing"@,
            _ => "end of line"@,
        },
    }
}

impl SyntaxErrorSpec {
    /// The error as it is written: what was due, the position, and what was
    /// met.
    pub open spec fn shown(self) -> Seq<char> {
        due(self.kind) + " at "@ + self.pos.shown() + ", got: "@ + met(self.kind, self.found)
    }
}

/// The words for what was due where an error of `kind` is met.
fn due_text(kind: ErrorKind) -> (r: &'static str)
    ensures
        r@ == due(kind),
{
    match kind {
        ErrorKind::UnexpectedCharacter(_) => "Expected a token",
        ErrorKind::NumberTooLarge => "Expected a number below 2147483648",
        ErrorKind::ExpectedOperand => "Expected one of `if`, `(`, variable or a number",
        ErrorKind::ExpectedClose => "Expected `)`",
        ErrorKind::ExpectedIf => "Expected `if`",
        ErrorKind::ExpectedComparator => "Expected a comparator",
        ErrorKind::UnsupportedComparator => "Expected `<`",
        ErrorKind::ExpectedThen => "Expected `then`",
        ErrorKind::ExpectedElse => "Expected `else`",
        ErrorKind::ExpectedFi => "Expected `fi`",
        ErrorKind::ExpectedNumber => "Expected number",
        ErrorKind::ExpectedAssign => "Expected '='",
        ErrorKind::ExpectedStatement => "Expected a statement",
        ErrorKind::TrailingInput => "Expected end of line",
    }
}

impl SyntaxError {
    /// The error as it is written for a reader.
    pub fn message(&self) -> (r: String)
        ensures
            r@ == self@.shown(),
    {
        let mut out = String::new();
        out.append(due_text(self.kind));
        out.append(" at ");
        out.append(self.pos.text().as_str());
        out.append(", got: ");
        let ghost head = out@;
        match &self.found {
            Some(t) => {
                let quote: char = match self.kind {
                    ErrorKind::ExpectedAssign => '\'',
                    _ => '`',
                };
                out.push(quote);
                out.append(t.text().as_str());
                out.push(quote);
                assert(out@ =~= head + met(self.kind, self@.found));
            },
            None => match self.kind {
                ErrorKind::UnexpectedCharacter(c) => {
                    out.push('`');
                    out.push(c);
                    out.push('`');
                    assert(out@ =~= head + met(self.kind, self@.found));
                },
                ErrorKind::NumberTooLarge => {
                    out.append("a number out of range");
                },
                ErrorKind::ExpectedAssign => {
                    out.append("nothing");
                },
                _ => {
                    out.append("end of line");
                },
            },
        }
        assert(head =~= due(self.kind) + " at "@ + self.pos.shown() + ", got: "@);
        out
    }
}

/// The words that go before the number of a line.
pub open spec fn complaint(e: ProgramErrorSpec) -> Seq<char> {
    match e {
        ProgramErrorSpec::MissingSignature => "End of file reached without function def"@,
        ProgramErrorSpec::OutsideFunction(_) => "Found statement outside of function on line "@,
        ProgramErrorSpec::BadSignature(_) => "Wrong definition of function on line "@,
        ProgramErrorSpec::BadArguments(_) => "Wrong argument definition in function on line "@,
        ProgramErrorSpec::BadPattern => "Pattern of a signature refused"@,
        ProgramErrorSpec::Syntax(_) => "Error: "@,
        ProgramErrorSpec::NoStatements => "Error while checking last definition"@,
        ProgramErrorSpec::LastNotReturn => "Last definition not Return"@,
        ProgramErrorSpec::MisplacedReturn => "Return before the last definition"@,
    }
}

impl ProgramErrorSpec {
    /// The error as it is written: its words, and behind them the number of
    /// the line, or the syntax error, where it has one.
    pub open spec fn shown(self) -> Seq<char> {
        match self {
            ProgramErrorSpec::OutsideFunction(n) => complaint(self) + numeral_of(n as nat),
            ProgramErrorSpec::BadSignature(n) => complaint(self) + numeral_of(n as nat),
            ProgramErrorSpec::BadArguments(n) => complaint(self) + numeral_of(n as nat),
            ProgramErrorSpec::Syntax(e) => complaint(self) + e.shown(),
            _ => complaint(self),
        }
    }
}

impl ProgramError {
    /// The words that go before the number of a line.
    fn words(&self) -> (r: &'static str)
        ensures
            r@ == complaint(self@),
    {
        match self {
            ProgramError::MissingSignature => "End of file reached without function def",
            ProgramError::OutsideFunction(_) => "Found statement outside of function on line ",
            ProgramError::BadSignature(_) => "Wrong definition of function on line ",
            ProgramError::BadArguments(_) => "Wrong argument definition in function on line ",
            ProgramError::BadPattern => "Pattern of a signature refused",
            ProgramError::Syntax(_) => "Error: ",
            ProgramError::NoStatements => "Error while checking last definition",
            ProgramError::LastNotReturn => "Last definition not Return",
            ProgramError::MisplacedReturn => "Return before the last definition",
        }
    }

    /// The error as it is written for a reader.
    pub fn message(&self) -> (r: String)
        ensures
            r@ == self@.shown(),
    {
        let mut out = String::new();
        out.append(self.words());
        assert(out@ =~= complaint(self@));
        match self {
            ProgramError::OutsideFunction(n) => {
                write_number(&mut out, *n as u64);
            },
            ProgramError::BadSignature(n) => {
                write_number(&mut out, *n as u64);
            },
            ProgramError::BadArguments(n) => {
                write_number(&mut out, *n as u64);
            },
            ProgramError::Syntax(e) => {
                out.append(e.message().as_str());
            },
            _ => {},
        }
        out
    }
}

} // verus!
