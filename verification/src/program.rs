//! Programs: a signature line and the statements behind it.
//!
//! Lines that are empty, and lines whose first characters behind any white
//! space are `//`, are passed over wherever they stand. The first of the
//! other lines must be the signature; each of the others behind it holds
//! one statement. Lines are numbered from one.

use vstd::prelude::*;
use vstd::string::*;
use crate::ast::{models, names, well_formed, Parameter, Prog, ProgSpec, Statement, StatementSpec};
use crate::error::{SyntaxError, SyntaxErrorSpec};
use crate::signature::{
    capture_of, captured, parameters, parameters_of, ARGUMENTS_PATTERN, SIGNATURE_PATTERN,
};
use crate::statement::{line, parse_line};
use crate::text::{has_prefix, run, scan, CharClass};

verus! {

/// Why a text is no program.
#[derive(Debug, PartialEq, Eq)]
pub enum ProgramError {
    /// The text ends before a signature was met.
    MissingSignature,
    /// The line of this number stands before the signature and is neither
    /// passed over nor a signature.
    OutsideFunction(usize),
    /// The line of this number starts like a signature and has not the form
    /// of one.
    BadSignature(usize),
    /// The signature on the line of this number holds no parameter list.
    BadArguments(usize),
    /// The pattern engine refused a pattern of this library.
    BadPattern,
    /// A line behind the signature holds no statement.
    Syntax(SyntaxError),
    /// No statement follows the signature.
    NoStatements,
    /// The last statement is not a `return`.
    LastNotReturn,
    /// A `return` stands before the last statement.
    MisplacedReturn,
}

/// [`ProgramError`] as a mathematical value.
pub enum ProgramErrorSpec {
    MissingSignature,
    OutsideFunction(usize),
    BadSignature(usize),
    BadArguments(usize),
    BadPattern,
    Syntax(SyntaxErrorSpec),
    NoStatements,
    LastNotReturn,
    MisplacedReturn,
}

impl View for ProgramError {
    type V = ProgramErrorSpec;

    open spec fn view(&self) -> ProgramErrorSpec {
        match self {
            ProgramError::MissingSignature => ProgramErrorSpec::MissingSignature,
            ProgramError::OutsideFunction(n) => ProgramErrorSpec::OutsideFunction(*n),
            ProgramError::BadSignature(n) => ProgramErrorSpec::BadSignature(*n),
            ProgramError::BadArguments(n) => ProgramErrorSpec::BadArguments(*n),
            ProgramError::BadPattern => ProgramErrorSpec::BadPattern,
            ProgramError::Syntax(e) => ProgramErrorSpec::Syntax(e@),
            ProgramError::NoStatements => ProgramErrorSpec::NoStatements,
            ProgramError::LastNotReturn => ProgramErrorSpec::LastNotReturn,
            ProgramError::MisplacedReturn => ProgramErrorSpec::MisplacedReturn,
        }
    }
}

/// The lines as character sequences.
pub open spec fn texts(lines: Seq<String>) -> Seq<Seq<char>> {
    lines.map_values(|line: String| line@)
}

/// Whether the line is a comment: behind its leading white space it starts
/// with `//`.
pub open spec fn is_comment(line: Seq<char>) -> bool {
    "//"@.is_prefix_of(line.skip(run(line, CharClass::Space) as int))
}

/// Whether the line is passed over: it is empty or a comment.
pub open spec fn is_skipped(line: Seq<char>) -> bool {
    line.len() == 0 || is_comment(line)
}

/// Whether the line starts like a signature.
pub open spec fn is_signature(line: Seq<char>) -> bool {
    "def"@.is_prefix_of(line)
}

/// The index of the first line from `from` on that is not passed over, or
/// the number of lines where there is none.
pub open spec fn next_unskipped(lines: Seq<Seq<char>>, from: nat) -> nat
    decreases lines.len() - from,
{
    if from < lines.len() && is_skipped(lines[from as int]) {
        next_unskipped(lines, from + 1)
    } else {
        from
    }
}

/// The number of the line at index `i`.
pub open spec fn number(i: nat) -> usize {
    (i + 1) as usize
}

/// What the pattern engine captured, as a mathematical value.
pub open spec fn capture_view(c: Option<Option<String>>) -> Option<Option<Seq<char>>> {
    match c {
        None => None,
        Some(None) => Some(None),
        Some(Some(part)) => Some(Some(part@)),
    }
}

/// The name and the parameters of a signature on the line of number `at`,
/// from what the pattern engine captured in it: `id` is the name, and the
/// parameters are read out of `args`. A refused pattern, a missing name and
/// a missing parameter list are errors, looked for in this order.
pub open spec fn signature_of(
    id: Option<Option<Seq<char>>>,
    args: Option<Option<Seq<char>>>,
    at: usize,
) -> Result<(Seq<char>, Seq<Seq<char>>), ProgramErrorSpec> {
    match id {
        None => Err(ProgramErrorSpec::BadPattern),
        Some(None) => Err(ProgramErrorSpec::BadSignature(at)),
        Some(Some(name)) => match args {
            None => Err(ProgramErrorSpec::BadPattern),
            Some(None) => Err(ProgramErrorSpec::BadArguments(at)),
            Some(Some(list)) => Ok((name, parameters_of(list))),
        },
    }
}

/// The name and the parameters that the signature `line` declares. Both
/// are what the pattern engine captures in the line: the name is the group
/// `id` of [`SIGNATURE_PATTERN`], the parameters are read out of the group
/// `args` of [`ARGUMENTS_PATTERN`].
pub open spec fn signature(line: Seq<char>, at: usize) -> Result<
    (Seq<char>, Seq<Seq<char>>),
    ProgramErrorSpec,
> {
    signature_of(
        captured(SIGNATURE_PATTERN@, "id"@, line),
        captured(ARGUMENTS_PATTERN@, "args"@, line),
        at,
    )
}

/// The statements of the lines from index `first` up to, and without, index
/// `upto`, in their order; or the error of the first of these lines that
/// holds no statement.
pub open spec fn gathered(lines: Seq<Seq<char>>, first: nat, upto: nat) -> Result<
    Seq<StatementSpec>,
    SyntaxErrorSpec,
>
    decreases upto,
{
    if upto <= first || upto > lines.len() {
        Ok(Seq::empty())
    } else {
        let last = (upto - 1) as nat;
        match gathered(lines, first, last) {
            Err(e) => Err(e),
            Ok(before) => if is_skipped(lines[last as int]) {
                Ok(before)
            } else {
                match line(lines[last as int], number(last)) {
                    Err(e) => Err(e),
                    Ok(s) => Ok(before.push(s)),
                }
            },
        }
    }
}

/// What keeps `statements` from being the statements of a program, if
/// anything does.
pub open spec fn structure_fault(statements: Seq<StatementSpec>) -> Option<ProgramErrorSpec> {
    if statements.len() == 0 {
        Some(ProgramErrorSpec::NoStatements)
    } else if !(statements.last() is Return) {
        Some(ProgramErrorSpec::LastNotReturn)
    } else if exists|i: int| 0 <= i < statements.len() - 1 && #[trigger] statements[i] is Return {
        Some(ProgramErrorSpec::MisplacedReturn)
    } else {
        None
    }
}

/// The program of the name `id` and the parameters `arguments` whose
/// statements are those of the lines from index `from` on.
pub open spec fn assembled(
    id: Seq<char>,
    arguments: Seq<Seq<char>>,
    lines: Seq<Seq<char>>,
    from: nat,
) -> Result<ProgSpec, ProgramErrorSpec> {
    match gathered(lines, from, lines.len()) {
        Err(e) => Err(ProgramErrorSpec::Syntax(e)),
        Ok(statements) => match structure_fault(statements) {
            Some(e) => Err(e),
            None => Ok(ProgSpec { id, arguments, statements }),
        },
    }
}

/// The program that the lines hold.
pub open spec fn program(lines: Seq<Seq<char>>) -> Result<ProgSpec, ProgramErrorSpec> {
    let head = next_unskipped(lines, 0);
    if head >= lines.len() {
        Err(ProgramErrorSpec::MissingSignature)
    } else if !is_signature(lines[head as int]) {
        Err(ProgramErrorSpec::OutsideFunction(number(head)))
    } else {
        match signature(lines[head as int], number(head)) {
            Err(e) => Err(e),
            Ok((id, arguments)) => assembled(id, arguments, lines, head + 1),
        }
    }
}

/// Whether the outcome `r` is the outcome `m` that the grammar gives.
pub open spec fn assembled_as(
    r: Result<Prog, ProgramError>,
    m: Result<ProgSpec, ProgramErrorSpec>,
) -> bool {
    match m {
        Ok(p) => r matches Ok(x) && x@ == p,
        Err(e) => r matches Err(x) && x@ == e,
    }
}

/// Statements are a program's exactly where nothing keeps them from it.
pub proof fn lemma_structure(statements: Seq<StatementSpec>)
    ensures
        structure_fault(statements) is None <==> well_formed(statements),
{
    if statements.len() > 0 && statements.last() is Return {
        if well_formed(statements) {
            assert forall|i: int| 0 <= i < statements.len() - 1 implies !(
            #[trigger] statements[i] is Return) by {
                assert(statements[i] is Definition);
            }
        }
    }
}

/// Lines whose last statement is an assignment are no program, whatever
/// their signature is.
pub proof fn lemma_last_must_return(
    id: Seq<char>,
    arguments: Seq<Seq<char>>,
    lines: Seq<Seq<char>>,
    from: nat,
)
    ensures
        gathered(lines, from, lines.len()) matches Ok(statements) && statements.len() > 0
            && statements.last() is Definition ==> assembled(id, arguments, lines, from) == Err::<
            ProgSpec,
            ProgramErrorSpec,
        >(ProgramErrorSpec::LastNotReturn),
{
}

/// What is read as a program is one: it has a statement, its last
/// statement is a `return`, and every statement before that is an
/// assignment.
pub proof fn lemma_program_is_well_formed(lines: Seq<Seq<char>>)
    ensures
        program(lines) matches Ok(p) ==> well_formed(p.statements),
{
    if let Ok(p) = program(lines) {
        lemma_structure(p.statements);
    }
}

/// The first error among the lines stays the error however many lines
/// follow.
pub proof fn lemma_first_error_stays(lines: Seq<Seq<char>>, first: nat, upto: nat, more: nat)
    requires
        gathered(lines, first, upto) is Err,
        upto <= more <= lines.len(),
    ensures
        gathered(lines, first, more) == gathered(lines, first, upto),
    decreases more,
{
    if more > upto {
        lemma_first_error_stays(lines, first, upto, (more - 1) as nat);
    }
}

/// Whether `line` is passed over.
pub fn line_is_skipped(line: &str) -> (b: bool)
    ensures
        b == is_skipped(line@),
{
    let n: usize = line.unicode_len();
    if n == 0 {
        return true;
    }
    assert(line@.skip(0) =~= line@);
    let start: usize = scan(line, 0, CharClass::Space);
    has_prefix(line, start, "//")
}

/// Whether `line` starts like a signature.
pub fn line_is_signature(line: &str) -> (b: bool)
    ensures
        b == is_signature(line@),
{
    assert(line@.skip(0) =~= line@);
    has_prefix(line, 0, "def")
}

/// The name and the parameters of a signature on the line of number `at`,
/// from what the pattern engine captured in it.
pub fn read_signature(id: Option<Option<String>>, args: Option<Option<String>>, at: usize) -> (r:
    Result<(String, Vec<Parameter>), ProgramError>)
    ensures
        match signature_of(capture_view(id), capture_view(args), at) {
            Ok((name, arguments)) => r matches Ok((x, y)) && x@ == name && names(y@) == arguments,
            Err(e) => r matches Err(x) && x@ == e,
        },
{
    match id {
        None => Err(ProgramError::BadPattern),
        Some(None) => Err(ProgramError::BadSignature(at)),
        Some(Some(name)) => match args {
            None => Err(ProgramError::BadPattern),
            Some(None) => Err(ProgramError::BadArguments(at)),
            Some(Some(list)) => Ok((name, parameters(list.as_str()))),
        },
    }
}

/// Reads the name and the parameters out of the signature `line`, which
/// stands on the line of number `at`.
pub fn parse_signature(line: &str, at: usize) -> (r: Result<
    (String, Vec<Parameter>),
    ProgramError,
>)
    ensures
        match signature(line@, at) {
            Ok((id, arguments)) => r matches Ok((x, y)) && x@ == id && names(y@) == arguments,
            Err(e) => r matches Err(x) && x@ == e,
        },
{
    let id = capture_of(SIGNATURE_PATTERN, "id", line);
    let args = capture_of(ARGUMENTS_PATTERN, "args", line);
    read_signature(id, args, at)
}

/// Reads the statements of the lines from index `from` on.
pub fn parse_body(lines: &Vec<String>, from: usize) -> (r: Result<Vec<Statement>, SyntaxError>)
    ensures
        match gathered(texts(lines@), from as nat, lines.len() as nat) {
            Ok(statements) => r matches Ok(v) && models(v@) == statements,
            Err(e) => r matches Err(x) && x@ == e,
        },
{
    let mut statements: Vec<Statement> = Vec::new();
    let mut i: usize = from;
    assert(models(statements@) =~= Seq::<StatementSpec>::empty());
    while i < lines.len()
        invariant
            from <= i,
            from <= lines.len() ==> i <= lines.len(),
            gathered(texts(lines@), from as nat, i as nat) == Ok::<
                Seq<StatementSpec>,
                SyntaxErrorSpec,
            >(models(statements@)),
        decreases lines.len() - i,
    {
        let text: &str = lines[i].as_str();
        assert(texts(lines@)[i as int] == text@);
        if !line_is_skipped(text) {
            match parse_line(text, i + 1) {
                Err(e) => {
                    proof {
                        lemma_first_error_stays(
                            texts(lines@),
                            from as nat,
                            (i + 1) as nat,
                            lines.len() as nat,
                        );
                    }
                    return Err(e);
                },
                Ok(s) => {
                    let ghost before = models(statements@);
                    statements.push(s);
                    assert(models(statements@) =~= before.push(s@));
                },
            }
        }
        i = i + 1;
    }
    Ok(statements)
}

/// What keeps `statements` from being the statements of a program, if
/// anything does.
pub fn check_structure(statements: &Vec<Statement>) -> (r: Option<ProgramError>)
    ensures
        match structure_fault(models(statements@)) {
            Some(e) => r matches Some(x) && x@ == e,
            None => r is None,
        },
        r is None <==> well_formed(models(statements@)),
{
    proof {
        lemma_structure(models(statements@));
    }
    let n: usize = statements.len();
    if n == 0 {
        return Some(ProgramError::NoStatements);
    }
    match &statements[n - 1] {
        Statement::Return(_) => {},
        Statement::Definition(_, _) => {
            return Some(ProgramError::LastNotReturn);
        },
    }
    let mut i: usize = 0;
    while i < n - 1
        invariant
            i <= n - 1,
            n == statements.len(),
            models(statements@).last() is Return,
            forall|j: int| 0 <= j < i ==> !(#[trigger] models(statements@)[j] is Return),
        decreases n - i,
    {
        match &statements[i] {
            Statement::Return(_) => {
                assert(models(statements@)[i as int] is Return);
                return Some(ProgramError::MisplacedReturn);
            },
            Statement::Definition(_, _) => {},
        }
        i = i + 1;
    }
    None
}

/// Puts a program together from its name, its parameters and the
/// statements of the lines from index `from` on.
pub fn assemble(id: String, arguments: Vec<Parameter>, lines: &Vec<String>, from: usize) -> (r:
    Result<Prog, ProgramError>)
    ensures
        assembled_as(r, assembled(id@, names(arguments@), texts(lines@), from as nat)),
        r matches Ok(p) ==> p.wf(),
{
    match parse_body(lines, from) {
        Err(e) => Err(ProgramError::Syntax(e)),
        Ok(statements) => match check_structure(&statements) {
            Some(e) => Err(e),
            None => Ok(Prog { id, arguments, statements }),
        },
    }
}

/// Reads the program that the lines hold.
pub fn parse_program(lines: &Vec<String>) -> (r: Result<Prog, ProgramError>)
    ensures
        assembled_as(r, program(texts(lines@))),
        r matches Ok(p) ==> p.wf(),
{
    let mut head: usize = 0;
    while head < lines.len() && line_is_skipped(lines[head].as_str())
        invariant
            head <= lines.len(),
            next_unskipped(texts(lines@), 0) == next_unskipped(texts(lines@), head as nat),
        decreases lines.len() - head,
    {
        assert(texts(lines@)[head as int] == lines[head as int]@);
        head = head + 1;
    }
    if head >= lines.len() {
        return Err(ProgramError::MissingSignature);
    }
    let line: &str = lines[head].as_str();
    assert(texts(lines@)[head as int] == line@);
    if !line_is_signature(line) {
        return Err(ProgramError::OutsideFunction(head + 1));
    }
    match parse_signature(line, head + 1) {
        Err(e) => Err(e),
        Ok((id, arguments)) => assemble(id, arguments, lines, head + 1),
    }
}

impl Clone for ProgramError {
    fn clone(&self) -> (r: ProgramError)
        ensures
            r@ == self@,
    {
        match self {
            ProgramError::MissingSignature => ProgramError::MissingSignature,
            ProgramError::OutsideFunction(n) => ProgramError::OutsideFunction(*n),
            ProgramError::BadSignature(n) => ProgramError::BadSignature(*n),
            ProgramError::BadArguments(n) => ProgramError::BadArguments(*n),
            ProgramError::BadPattern => ProgramError::BadPattern,
            ProgramError::Syntax(e) => ProgramError::Syntax(e.clone()),
            ProgramError::NoStatements => ProgramError::NoStatements,
            ProgramError::LastNotReturn => ProgramError::LastNotReturn,
            ProgramError::MisplacedReturn => ProgramError::MisplacedReturn,
        }
    }
}

} // verus!
