//! The signature line: `def`, the program's name and its parameters.

use vstd::prelude::*;
use vstd::string::*;
use crate::ast::{names, Parameter};
use crate::text::CharClass;

verus! {

/// The form of a signature line; the group `id` is the program's name.
pub const SIGNATURE_PATTERN: &'static str =
    r"^def\s(?P<id>\D[a-zA-Z0-9]+)\(\s*([a-z]+)(,\s*[a-z]+)*\s*\):$";

/// The form of a parameter list; the group `args` is what stands between
/// the parentheses.
pub const ARGUMENTS_PATTERN: &'static str = r"\(\s*(?P<args>[a-z]+(,\s*[a-z]+)*)\s*\)";

/// What the pattern engine captures: for the first match of the regular
/// expression `pattern` in `text`, the part of `text` that the group named
/// `group` matched. The outer `None` stands for a pattern that the engine
/// refuses; the inner `None` for a text without a match, or a match in
/// which the group took no part.
pub uninterp spec fn captured(pattern: Seq<char>, group: Seq<char>, text: Seq<char>) -> Option<
    Option<Seq<char>>,
>;

/// `regex::Error`, with which the pattern engine refuses a pattern. Nothing
/// is said of what it holds.
#[verifier::external_type_specification]
#[verifier::external_body]
pub struct ExPatternError(regex::Error);

/// Calls `regex::Regex::new` on `pattern`, `Regex::captures` on `text` and
/// `Captures::name` on `group`, and copies the text of the match
/// (`Match::as_str`). Nothing is proved of the engine: the contract only
/// gives its answer the name [`captured`], which holds that the answer
/// depends on the three texts alone.
#[verifier::external_body]
fn capture(pattern: &str, group: &str, text: &str) -> (r: Result<Option<String>, regex::Error>)
    ensures
        match r {
            Ok(Some(part)) => captured(pattern@, group@, text@) == Some(Some(part@)),
            Ok(None) => captured(pattern@, group@, text@) == Some(None::<Seq<char>>),
            Err(_) => captured(pattern@, group@, text@) is None,
        },
{
    match regex::Regex::new(pattern) {
        Err(e) => Err(e),
        Ok(re) => match re.captures(text) {
            None => Ok(None),
            Some(groups) => match groups.name(group) {
                None => Ok(None),
                Some(part) => Ok(Some(part.as_str().to_string())),
            },
        },
    }
}

/// What the pattern engine captures for `group` in `text`, with a refused
/// pattern told apart from a missing match.
pub fn capture_of(pattern: &str, group: &str, text: &str) -> (r: Option<Option<String>>)
    ensures
        match captured(pattern@, group@, text@) {
            Some(Some(part)) => r matches Some(Some(x)) && x@ == part,
            Some(None) => r == Some(None::<String>),
            None => r is None,
        },
{
    match capture(pattern, group, text) {
        Ok(part) => Some(part),
        Err(_) => None,
    }
}

/// The text `s` with its blanks, the spaces and tabs, taken out.
pub open spec fn without_blanks(s: Seq<char>) -> Seq<char>
    decreases s.len(),
{
    if s.len() == 0 {
        s
    } else if CharClass::Blank.holds(s.last()) {
        without_blanks(s.drop_last())
    } else {
        without_blanks(s.drop_last()).push(s.last())
    }
}

/// The pieces of `s` between its separators `sep`. There is always one
/// piece more than there are separators: a text without separators is one
/// piece, and so is the empty text.
pub open spec fn split(s: Seq<char>, sep: char) -> Seq<Seq<char>>
    decreases s.len(),
{
    if s.len() == 0 {
        seq![Seq::empty()]
    } else {
        let before = split(s.drop_last(), sep);
        if s.last() == sep {
            before.push(Seq::empty())
        } else {
            before.drop_last().push(before.last().push(s.last()))
        }
    }
}

/// The pieces written one after the other with `sep` between them.
pub open spec fn join(pieces: Seq<Seq<char>>, sep: char) -> Seq<char>
    decreases pieces.len(),
{
    if pieces.len() == 0 {
        Seq::empty()
    } else if pieces.len() == 1 {
        pieces[0]
    } else {
        join(pieces.drop_last(), sep).push(sep) + pieces.last()
    }
}

/// Whether `c` does not occur in `s`.
pub open spec fn free_of(s: Seq<char>, c: char) -> bool {
    forall|i: int| 0 <= i < s.len() ==> s[i] != c
}

/// Splitting cuts exactly at the separators: no piece holds one, and the
/// pieces joined by the separator give the text back.
pub proof fn lemma_split_joins(s: Seq<char>, sep: char)
    ensures
        split(s, sep).len() >= 1,
        forall|k: int| 0 <= k < split(s, sep).len() ==> free_of(#[trigger] split(s, sep)[k], sep),
        join(split(s, sep), sep) == s,
    decreases s.len(),
{
    if s.len() == 0 {
        assert(join(split(s, sep), sep) =~= s);
    } else {
        let shorter = s.drop_last();
        let before = split(shorter, sep);
        lemma_split_joins(shorter, sep);
        if s.last() == sep {
            let pieces = before.push(Seq::empty());
            assert(pieces.drop_last() =~= before);
            assert(join(pieces, sep) =~= s);
        } else {
            let grown = before.last().push(s.last());
            let pieces = before.drop_last().push(grown);
            assert(pieces.drop_last() =~= before.drop_last());
            assert(s =~= shorter.push(s.last()));
            assert(join(pieces, sep) =~= s) by {
                if before.len() > 1 {
                    let head = join(before.drop_last(), sep).push(sep);
                    assert(join(before, sep) == head + before.last());
                    assert(join(pieces, sep) == head + grown);
                    assert(head + grown =~= (head + before.last()).push(s.last()));
                } else {
                    assert(join(pieces, sep) == grown);
                    assert(join(before, sep) == before.last());
                }
            }
            assert forall|k: int| 0 <= k < pieces.len() implies free_of(
                #[trigger] pieces[k],
                sep,
            ) by {
                if k < pieces.len() - 1 {
                    assert(pieces[k] == before[k]);
                } else {
                    assert(free_of(before[before.len() - 1], sep));
                }
            }
        }
    }
}

/// Joining puts the separators exactly where splitting cuts: pieces that
/// hold no separator are what their joined text is split into.
pub proof fn lemma_join_splits(pieces: Seq<Seq<char>>, sep: char)
    requires
        pieces.len() >= 1,
        forall|k: int| 0 <= k < pieces.len() ==> free_of(#[trigger] pieces[k], sep),
    ensures
        split(join(pieces, sep), sep) == pieces,
    decreases join(pieces, sep).len(),
{
    let s = join(pieces, sep);
    let front = pieces.drop_last();
    let last = pieces.last();
    assert(free_of(last, sep));
    if pieces.len() == 1 {
        if last.len() == 0 {
            assert(last =~= Seq::<char>::empty());
            assert(split(s, sep) =~= pieces);
        } else {
            let shorter = seq![last.drop_last()];
            assert(free_of(shorter[0], sep)) by {
                assert forall|i: int| 0 <= i < shorter[0].len() implies shorter[0][i] != sep by {
                    assert(shorter[0][i] == last[i]);
                }
            }
            assert(join(shorter, sep) == s.drop_last());
            lemma_join_splits(shorter, sep);
            assert(last.last() != sep);
            assert(split(s, sep) =~= pieces) by {
                assert(last.drop_last().push(last.last()) =~= last);
            }
        }
    } else {
        let head = join(front, sep).push(sep);
        assert(s == head + last);
        assert forall|k: int| 0 <= k < front.len() implies free_of(#[trigger] front[k], sep) by {
            assert(front[k] == pieces[k]);
        }
        if last.len() == 0 {
            assert(s =~= head);
            assert(s.drop_last() =~= join(front, sep));
            lemma_join_splits(front, sep);
            assert(last =~= Seq::<char>::empty());
            assert(s.last() == sep);
            assert(split(s, sep) =~= pieces);
        } else {
            let shorter = front.push(last.drop_last());
            assert(shorter.drop_last() =~= front);
            assert forall|k: int| 0 <= k < shorter.len() implies free_of(
                #[trigger] shorter[k],
                sep,
            ) by {
                if k < front.len() {
                    assert(shorter[k] == pieces[k]);
                } else {
                    assert forall|i: int| 0 <= i < shorter[k].len() implies shorter[k][i]
                        != sep by {
                        assert(shorter[k][i] == last[i]);
                    }
                }
            }
            assert(join(shorter, sep) =~= s.drop_last());
            lemma_join_splits(shorter, sep);
            assert(s.last() == last.last());
            assert(last.last() != sep);
            assert(split(s, sep) =~= pieces) by {
                assert(last.drop_last().push(last.last()) =~= last);
            }
        }
    }
}

/// The parameters that a parameter list declares: the blanks are dropped
/// and what stands between the commas are the names.
pub open spec fn parameters_of(args: Seq<char>) -> Seq<Seq<char>> {
    split(without_blanks(args), ',')
}

/// Reads the parameters out of the parameter list `args`.
pub fn parameters(args: &str) -> (r: Vec<Parameter>)
    ensures
        names(r@) == parameters_of(args@),
{
    let n: usize = args.unicode_len();
    let mut done: Vec<Parameter> = Vec::new();
    let mut name = String::new();
    let mut i: usize = 0;
    assert(names(done@).push(name@) =~= parameters_of(args@.take(0)));
    while i < n
        invariant
            i <= n,
            n == args@.len(),
            names(done@).push(name@) == parameters_of(args@.take(i as int)),
        decreases n - i,
    {
        let c: char = args.get_char(i);
        let ghost before = parameters_of(args@.take(i as int));
        proof {
            assert(args@.take(i + 1).drop_last() =~= args@.take(i as int));
            assert(args@.take(i + 1).last() == c);
            assert(before.drop_last() =~= names(done@));
            assert(before.last() == name@);
        }
        if c == ',' {
            proof {
                assert(without_blanks(args@.take(i + 1)).drop_last() =~= without_blanks(
                    args@.take(i as int),
                ));
            }
            done.push(Parameter { id: name });
            name = String::new();
            assert(names(done@) =~= before);
        } else if c == ' ' || c == '\t' {
        } else {
            proof {
                assert(without_blanks(args@.take(i + 1)).drop_last() =~= without_blanks(
                    args@.take(i as int),
                ));
            }
            name.push(c);
        }
        i = i + 1;
    }
    assert(args@.take(n as int) =~= args@);
    let ghost all = names(done@).push(name@);
    done.push(Parameter { id: name });
    assert(names(done@) =~= all);
    done
}

} // verus!
