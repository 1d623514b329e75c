//! Syntax errors and where they point.

use vstd::prelude::*;
use crate::position::Position;
use crate::token::{Token, TokenSpec};

verus! {

/// What went wrong while reading one line.
#[derive(Clone, Copy, Debug, PartialEq, Eq, Structural)]
pub enum ErrorKind {
    /// A character with which no token starts.
    UnexpectedCharacter(char),
    /// A numeral too large for the number type.
    NumberTooLarge,
    /// An operand was due: `if`, `(`, a variable or a number.
    ExpectedOperand,
    /// A `)` was due.
    ExpectedClose,
    /// An `if` was due.
    ExpectedIf,
    /// A comparator was due between the two sides of a condition.
    ExpectedComparator,
    /// One of `<=`, `==`, `>=`, `>` stands where only `<` is understood.
    UnsupportedComparator,
    /// A `then` was due.
    ExpectedThen,
    /// An `else` was due.
    ExpectedElse,
    /// A `fi` was due.
    ExpectedFi,
    /// A number was due after `**`.
    ExpectedNumber,
    /// A `=` was due after the name that starts an assignment. Where
    /// another token stands there, the error points behind that token.
    ExpectedAssign,
    /// A statement starts with a name or with `return`.
    ExpectedStatement,
    /// A `return` statement must use up its line.
    TrailingInput,
}

/// A syntax error: its kind, a position, and the token that was found in
/// place of what was due (`None` where no token is left, and for the two
/// errors of the tokenizer). The position is the one at which the parser
/// stood when it looked for the token, with two exceptions: an error of the
/// tokenizer points at the offending character itself, and a missing `=`
/// points behind the token found in its place.
#[derive(Debug, PartialEq, Eq)]
pub struct SyntaxError {
    pub kind: ErrorKind,
    pub pos: Position,
    pub found: Option<Token>,
}

/// A syntax error as a mathematical value.
pub struct SyntaxErrorSpec {
    pub kind: ErrorKind,
    pub pos: Position,
    pub found: Option<TokenSpec>,
}

impl View for SyntaxError {
    type V = SyntaxErrorSpec;

    open spec fn view(&self) -> SyntaxErrorSpec {
        SyntaxErrorSpec {
            kind: self.kind,
            pos: self.pos,
            found: match self.found {
                Some(t) => Some(t@),
                None => None,
            },
        }
    }
}

/// A syntax error of the grammar: like [`SyntaxErrorSpec`], but placed by the
/// number of characters between the start of the text and the error.
pub struct Fault {
    pub kind: ErrorKind,
    pub at: nat,
    pub found: Option<TokenSpec>,
}

impl Fault {
    /// The same fault seen from `n` characters further back.
    pub open spec fn shifted(self, n: nat) -> Fault {
        Fault { kind: self.kind, at: n + self.at, found: self.found }
    }

    /// The error that this fault is for a text that starts at `pos`.
    pub open spec fn located(self, pos: Position) -> SyntaxErrorSpec {
        SyntaxErrorSpec { kind: self.kind, pos: pos.advance(self.at), found: self.found }
    }
}

/// The fault of finding `found` at offset `at` where `kind` says what was due.
pub open spec fn unexpected(kind: ErrorKind, at: nat, found: Option<(TokenSpec, nat)>) -> Fault {
    Fault {
        kind,
        at,
        found: match found {
            Some((t, _)) => Some(t),
            None => None,
        },
    }
}

impl Clone for SyntaxError {
    fn clone(&self) -> (r: SyntaxError)
        ensures
            r@ == self@,
    {
        let found = match &self.found {
            Some(t) => Some(t.clone()),
            None => None,
        };
        SyntaxError { kind: self.kind, pos: self.pos, found }
    }
}

} // verus!
