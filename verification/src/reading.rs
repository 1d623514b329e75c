//! What the tokenizer reads at the start of texts whose first characters are
//! known, whatever follows them.

use vstd::prelude::*;
use crate::error::Fault;
use crate::lexer::{symbol, token};
use crate::text::{
    lemma_decimal_grows, lemma_numeral_reads_back, lemma_run_is_maximal, lemma_run_split,
    numeral_of, rest, run, CharClass,
};
use crate::token::TokenSpec;

verus! {

/// The outcome of the tokenizer that is the token `t` of `n` characters.
pub open spec fn reads(t: TokenSpec, n: nat) -> Result<Option<(TokenSpec, nat)>, Fault> {
    Ok(Some((t, n)))
}

/// Whether `x` can be the name of a variable: a letter, and letters and
/// digits behind it.
pub open spec fn valid_name(x: Seq<char>) -> bool {
    &&& x.len() > 0
    &&& CharClass::Letter.holds(x[0])
    &&& forall|i: int| 0 < i < x.len() ==> CharClass::LetterOrDigit.holds(#[trigger] x[i])
}

/// What is left of `a + b` behind `a` is `b`.
pub proof fn lemma_rest_of_sum(a: Seq<char>, b: Seq<char>)
    ensures
        rest(a + b, a.len()) == b,
        (a + b).skip(a.len() as int) == b,
{
    assert((a + b).skip(a.len() as int) =~= b);
}

/// A run of characters of one class, followed by a character outside the
/// class or by nothing, is as long as it is.
pub proof fn lemma_run_of_sum(a: Seq<char>, b: Seq<char>, class: CharClass)
    requires
        forall|i: int| 0 <= i < a.len() ==> class.holds(#[trigger] a[i]),
        b.len() == 0 || !class.holds(b[0]),
    ensures
        run(a + b, class) == a.len(),
{
    let s = a + b;
    assert forall|i: int| 0 <= i < a.len() implies class.holds(#[trigger] s[i]) by {
        assert(s[i] == a[i]);
    }
    lemma_run_split(s, class, a.len());
    lemma_rest_of_sum(a, b);
}

/// A word that differs from a text in one of its characters, or is longer
/// than the text, is no start of the text.
pub proof fn lemma_not_prefix(word: Seq<char>, s: Seq<char>, k: int)
    requires
        0 <= k < word.len(),
        k >= s.len() || word[k] != s[k],
    ensures
        !word.is_prefix_of(s),
{
    if word.len() <= s.len() {
        assert(s.subrange(0, word.len() as int)[k] == s[k]);
    }
}

/// In a text that starts with no blank the first token starts at once.
pub proof fn lemma_token_at_once(s: Seq<char>)
    requires
        s.len() > 0,
        !CharClass::Blank.holds(s[0]),
    ensures
        token(s) == match symbol(s) {
            Ok((t, n)) => reads(t, n),
            Err(kind) => Err(Fault { kind, at: 0, found: None }),
        },
{
    reveal(token);
    assert(s.skip(0) =~= s);
}

/// One blank in front moves the first token by one character.
pub proof fn lemma_token_behind_blank(s: Seq<char>, t: TokenSpec, n: nat)
    requires
        token(s) == reads(t, n),
    ensures
        token(seq![' '] + s) == reads(t, n + 1),
{
    reveal(token);
    let whole = seq![' '] + s;
    assert(whole.skip(1) =~= s);
    assert(whole[0] == ' ');
    let k = run(s, CharClass::Blank);
    lemma_run_is_maximal(s, CharClass::Blank);
    assert(whole.skip(1 + k as int) =~= s.skip(k as int));
}

/// The tokens of one character, whatever follows them.
pub proof fn lemma_reads_punctuation(w: Seq<char>)
    ensures
        token(seq!['('] + w) == reads(TokenSpec::Open, 1),
        token(seq![')'] + w) == reads(TokenSpec::Close, 1),
        token(seq!['+'] + w) == reads(TokenSpec::Add, 1),
        token(seq!['-'] + w) == reads(TokenSpec::Sub, 1),
        token(seq!['/'] + w) == reads(TokenSpec::Div, 1),
        token(seq![' ', ')'] + w) == reads(TokenSpec::Close, 2),
{
    lemma_token_at_once(seq!['('] + w);
    lemma_token_at_once(seq![')'] + w);
    lemma_token_at_once(seq!['+'] + w);
    lemma_token_at_once(seq!['-'] + w);
    lemma_token_at_once(seq!['/'] + w);
    lemma_token_behind_blank(seq![')'] + w, TokenSpec::Close, 1);
    assert(seq![' ', ')'] + w =~= seq![' '] + (seq![')'] + w));
}

/// The operators that are the start of longer ones, in front of an opening
/// parenthesis.
pub proof fn lemma_reads_operator(w: Seq<char>)
    requires
        w.len() > 0,
        w[0] == '(',
    ensures
        token(seq!['*'] + w) == reads(TokenSpec::Mult, 1),
        token(seq!['<'] + w) == reads(TokenSpec::Lt, 1),
        token(seq!['='] + w) == reads(TokenSpec::Eq, 1),
{
    lemma_token_at_once(seq!['*'] + w);
    lemma_token_at_once(seq!['<'] + w);
    lemma_token_at_once(seq!['='] + w);
    assert((seq!['*'] + w)[1] == w[0]);
    assert((seq!['<'] + w)[1] == w[0]);
    assert((seq!['='] + w)[1] == w[0]);
}

/// The power sign, whatever follows it.
pub proof fn lemma_reads_power(w: Seq<char>)
    ensures
        token(seq!['*', '*'] + w) == reads(TokenSpec::Pow, 2),
{
    lemma_token_at_once(seq!['*', '*'] + w);
}

/// The keywords, each with its blank, whatever follows them.
pub proof fn lemma_reads_keyword(w: Seq<char>)
    ensures
        token("return "@ + w) == reads(TokenSpec::Return, 7),
        token("if "@ + w) == reads(TokenSpec::If, 3),
        token("then "@ + w) == reads(TokenSpec::Then, 5),
        token("else "@ + w) == reads(TokenSpec::Else, 5),
        token("fi "@ + w) == reads(TokenSpec::Fi, 2),
{
    reveal_strlit("return ");
    reveal_strlit("if ");
    reveal_strlit("then ");
    reveal_strlit("else ");
    reveal_strlit("fi ");
    reveal_strlit("fi");
    let r = "return "@ + w;
    lemma_token_at_once(r);
    assert("return "@ =~= r.subrange(0, 7));
    let i = "if "@ + w;
    lemma_token_at_once(i);
    assert("if "@ =~= i.subrange(0, 3));
    lemma_not_prefix("return "@, i, 0);
    let t = "then "@ + w;
    lemma_token_at_once(t);
    assert("then "@ =~= t.subrange(0, 5));
    lemma_not_prefix("return "@, t, 0);
    lemma_not_prefix("if "@, t, 0);
    let e = "else "@ + w;
    lemma_token_at_once(e);
    assert("else "@ =~= e.subrange(0, 5));
    lemma_not_prefix("return "@, e, 0);
    lemma_not_prefix("if "@, e, 0);
    lemma_not_prefix("then "@, e, 0);
    let f = "fi "@ + w;
    lemma_token_at_once(f);
    assert("fi "@ =~= f.subrange(0, 3));
    lemma_not_prefix("return "@, f, 0);
    lemma_not_prefix("if "@, f, 0);
    lemma_not_prefix("then "@, f, 0);
    lemma_not_prefix("else "@, f, 0);
}

/// A numeral in front of a closing parenthesis is read as its number.
pub proof fn lemma_reads_number(n: nat, w: Seq<char>)
    requires
        n <= i32::MAX,
        w.len() > 0,
        w[0] == ')',
    ensures
        token(numeral_of(n) + w) == reads(TokenSpec::Num(n as int), numeral_of(n).len()),
{
    reveal_strlit("return ");
    reveal_strlit("if ");
    reveal_strlit("then ");
    reveal_strlit("else ");
    reveal_strlit("fi ");
    reveal_strlit("fi");
    let digits = numeral_of(n);
    let s = digits + w;
    lemma_numeral_reads_back(n);
    lemma_run_is_maximal(digits, CharClass::Digit);
    lemma_run_of_sum(digits, w, CharClass::Digit);
    assert(s[0] == digits[0]);
    lemma_token_at_once(s);
    assert(s.take(digits.len() as int) =~= digits);
    lemma_not_prefix("return "@, s, 0);
    lemma_not_prefix("if "@, s, 0);
    lemma_not_prefix("then "@, s, 0);
    lemma_not_prefix("else "@, s, 0);
    lemma_not_prefix("fi "@, s, 0);
}

/// A name in front of a closing parenthesis or an equals sign is read as
/// that name, also where it is spelled like a keyword.
pub proof fn lemma_reads_name(x: Seq<char>, w: Seq<char>)
    requires
        valid_name(x),
        w.len() > 0,
        w[0] == ')' || w[0] == '=',
    ensures
        token(x + w) == reads(TokenSpec::Ide(x), x.len()),
{
    reveal_strlit("return ");
    reveal_strlit("if ");
    reveal_strlit("then ");
    reveal_strlit("else ");
    reveal_strlit("fi ");
    reveal_strlit("fi");
    let s = x + w;
    let n = x.len() as int;
    assert(s[0] == x[0]);
    lemma_token_at_once(s);
    assert forall|i: int| 0 <= i < n implies s[i] != ' ' && s[i] == x[i] by {
        assert(s[i] == x[i]);
        if i > 0 {
            assert(CharClass::LetterOrDigit.holds(x[i]));
        }
    }
    assert(s[n] == w[0]);
    let k7 = if n < 6 { n } else { 6 };
    lemma_not_prefix("return "@, s, k7);
    let k3 = if n < 2 { n } else { 2 };
    lemma_not_prefix("if "@, s, k3);
    lemma_not_prefix("fi "@, s, k3);
    let k5 = if n < 4 { n } else { 4 };
    lemma_not_prefix("then "@, s, k5);
    lemma_not_prefix("else "@, s, k5);
    assert(s == "fi"@ ==> s[n] == 'i' || s.len() < 2);
    let trail = s.skip(1);
    assert(trail =~= x.skip(1) + w);
    assert forall|i: int| 0 <= i < x.skip(1).len() implies CharClass::LetterOrDigit.holds(
        #[trigger] x.skip(1)[i],
    ) by {
        assert(x.skip(1)[i] == x[i + 1]);
    }
    lemma_run_of_sum(x.skip(1), w, CharClass::LetterOrDigit);
    assert(s.take(n) =~= x);
}

/// What the tokenizer reads as a name is one, and what it reads as a
/// number is not negative and fits the number type.
pub proof fn lemma_token_payload(s: Seq<char>)
    ensures
        token(s) matches Ok(Some((TokenSpec::Ide(x), _))) ==> valid_name(x),
        token(s) matches Ok(Some((TokenSpec::Num(v), _))) ==> 0 <= v <= i32::MAX,
{
    reveal(token);
    reveal_strlit("return ");
    reveal_strlit("if ");
    reveal_strlit("then ");
    reveal_strlit("else ");
    reveal_strlit("fi ");
    reveal_strlit("fi");
    lemma_run_is_maximal(s, CharClass::Blank);
    let t = s.skip(run(s, CharClass::Blank) as int);
    if t.len() > 0 {
        lemma_run_is_maximal(t, CharClass::Digit);
        lemma_run_is_maximal(t.skip(1), CharClass::LetterOrDigit);
        if let Ok(Some((TokenSpec::Ide(x), _))) = token(s) {
            let n = 1 + run(t.skip(1), CharClass::LetterOrDigit);
            assert(x == t.take(n as int));
            assert forall|i: int| 0 < i < x.len() implies CharClass::LetterOrDigit.holds(
                #[trigger] x[i],
            ) by {
                assert(x[i] == t.skip(1)[i - 1]);
            }
        }
        if let Ok(Some((TokenSpec::Num(v), _))) = token(s) {
            let n = run(t, CharClass::Digit);
            let digits = t.take(n as int);
            assert forall|k: int| 0 <= k < digits.len() implies CharClass::Digit.holds(
                #[trigger] digits[k],
            ) by {
                assert(digits[k] == t[k]);
            }
            lemma_decimal_grows(digits, 0, digits.len() as int);
            assert(digits.take(digits.len() as int) =~= digits);
        }
    }
}

} // verus!
