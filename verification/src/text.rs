//! Character classes, runs of characters and decimal numerals.

use vstd::prelude::*;
use vstd::string::*;

verus! {

/// The character classes the tokenizer tells apart.
#[derive(Clone, Copy, Debug, PartialEq, Eq, Structural)]
pub enum CharClass {
    /// A space or a tab.
    Blank,
    /// `0` to `9`.
    Digit,
    /// `a` to `z` and `A` to `Z`.
    Letter,
    /// A letter or a digit.
    LetterOrDigit,
    /// White space as Unicode defines it, which trimming a text removes.
    Space,
}

impl CharClass {
    /// Whether `c` belongs to the class.
    pub open spec fn holds(self, c: char) -> bool {
        match self {
            CharClass::Blank => c == ' ' || c == '\t',
            CharClass::Digit => '0' <= c <= '9',
            CharClass::Letter => ('a' <= c <= 'z') || ('A' <= c <= 'Z'),
            CharClass::LetterOrDigit => ('a' <= c <= 'z') || ('A' <= c <= 'Z') || ('0' <= c <= '9'),
            CharClass::Space => ('\u{9}' <= c <= '\u{d}') || c == ' ' || c == '\u{85}' || c
                == '\u{a0}' || c == '\u{1680}' || ('\u{2000}' <= c <= '\u{200a}') || c
                == '\u{2028}' || c == '\u{2029}' || c == '\u{202f}' || c == '\u{205f}' || c
                == '\u{3000}',
        }
    }

    /// Tests whether `c` belongs to the class.
    pub fn contains(self, c: char) -> (b: bool)
        ensures
            b == self.holds(c),
    {
        match self {
            CharClass::Blank => c == ' ' || c == '\t',
            CharClass::Digit => '0' <= c && c <= '9',
            CharClass::Letter => ('a' <= c && c <= 'z') || ('A' <= c && c <= 'Z'),
            CharClass::LetterOrDigit => ('a' <= c && c <= 'z') || ('A' <= c && c <= 'Z') || ('0'
                <= c && c <= '9'),
            CharClass::Space => ('\u{9}' <= c && c <= '\u{d}') || c == ' ' || c == '\u{85}' || c
                == '\u{a0}' || c == '\u{1680}' || ('\u{2000}' <= c && c <= '\u{200a}') || c
                == '\u{2028}' || c == '\u{2029}' || c == '\u{202f}' || c == '\u{205f}' || c
                == '\u{3000}',
        }
    }
}

/// What is left of `s` once its first `n` characters are consumed.
pub open spec fn rest(s: Seq<char>, n: nat) -> Seq<char> {
    if n <= s.len() {
        s.skip(n as int)
    } else {
        Seq::empty()
    }
}

/// Consuming `n` characters and then `m` more is consuming `n + m`.
pub proof fn lemma_rest_of_rest(s: Seq<char>, n: nat, m: nat)
    requires
        n + m <= s.len(),
    ensures
        s.skip(n as int).skip(m as int) == s.skip((n + m) as int),
        rest(s, n) == s.skip(n as int),
        rest(s, n + m) == s.skip((n + m) as int),
{
    assert(s.skip(n as int).skip(m as int) =~= s.skip((n + m) as int));
}

/// The length of the longest prefix of `s` made of characters of `class`.
pub open spec fn run(s: Seq<char>, class: CharClass) -> nat
    decreases s.len(),
{
    if s.len() > 0 && class.holds(s[0]) {
        1 + run(s.skip(1), class)
    } else {
        0
    }
}

/// A run is a prefix, holds only characters of its class, and stops at the
/// first character outside the class.
pub proof fn lemma_run_is_maximal(s: Seq<char>, class: CharClass)
    ensures
        run(s, class) <= s.len(),
        forall|i: int| 0 <= i < run(s, class) ==> class.holds(#[trigger] s[i]),
        run(s, class) < s.len() ==> !class.holds(s[run(s, class) as int]),
    decreases s.len(),
{
    if s.len() > 0 && class.holds(s[0]) {
        let t = s.skip(1);
        lemma_run_is_maximal(t, class);
        assert forall|i: int| 0 <= i < run(s, class) implies class.holds(#[trigger] s[i]) by {
            if i > 0 {
                assert(s[i] == t[i - 1]);
            }
        }
        if run(s, class) < s.len() {
            assert(s[run(s, class) as int] == t[run(t, class) as int]);
        }
    }
}

/// A run that starts `i` characters into `s`, all of them of the class, ends
/// where the run from the start of `s` ends.
pub proof fn lemma_run_split(s: Seq<char>, class: CharClass, i: nat)
    requires
        i <= s.len(),
        forall|j: int| 0 <= j < i ==> class.holds(#[trigger] s[j]),
    ensures
        run(s, class) == i + run(s.skip(i as int), class),
    decreases i,
{
    if i > 0 {
        let t = s.skip(1);
        assert forall|j: int| 0 <= j < i - 1 implies class.holds(#[trigger] t[j]) by {
            assert(t[j] == s[j + 1]);
        }
        lemma_run_split(t, class, (i - 1) as nat);
        assert(t.skip(i - 1) =~= s.skip(i as int));
    } else {
        assert(s.skip(0) =~= s);
    }
}

/// The value of the digit `c`.
pub open spec fn digit_value(c: char) -> int {
    c as int - '0' as int
}

/// The number that the digits of `s` write in base ten.
pub open spec fn decimal(s: Seq<char>) -> int
    decreases s.len(),
{
    if s.len() == 0 {
        0
    } else {
        10 * decimal(s.drop_last()) + digit_value(s.last())
    }
}

/// A numeral's value never shrinks when more digits follow.
pub proof fn lemma_decimal_grows(s: Seq<char>, i: int, j: int)
    requires
        0 <= i <= j <= s.len(),
        forall|k: int| 0 <= k < s.len() ==> CharClass::Digit.holds(#[trigger] s[k]),
    ensures
        0 <= decimal(s.take(i)) <= decimal(s.take(j)),
    decreases j,
{
    if j == 0 {
        assert(s.take(0).len() == 0);
    } else if i == j {
        lemma_decimal_grows(s, 0, j - 1);
        assert(s.take(j).drop_last() =~= s.take(j - 1));
    } else {
        lemma_decimal_grows(s, i, j - 1);
        assert(s.take(j).drop_last() =~= s.take(j - 1));
    }
}

/// The end of the run of `class` that starts at character `from` of `input`.
pub fn scan(input: &str, from: usize, class: CharClass) -> (end: usize)
    requires
        from <= input@.len(),
    ensures
        end == from + run(input@.skip(from as int), class),
        from <= end <= input@.len(),
{
    let n: usize = input.unicode_len();
    let mut i: usize = from;
    let ghost tail = input@.skip(from as int);
    while i < n && class.contains(input.get_char(i))
        invariant
            from <= i <= n,
            n == input@.len(),
            tail == input@.skip(from as int),
            forall|j: int| 0 <= j < i - from ==> class.holds(#[trigger] tail[j]),
        decreases n - i,
    {
        i = i + 1;
    }
    proof {
        lemma_run_split(tail, class, (i - from) as nat);
        assert(tail.skip(i - from) =~= input@.skip(i as int));
        if i < n {
            assert(input@.skip(i as int)[0] == input@[i as int]);
        }
    }
    i
}

/// Whether the characters of `input` from `from` on begin with `word`.
pub fn has_prefix(input: &str, from: usize, word: &str) -> (b: bool)
    requires
        from <= input@.len(),
    ensures
        b == word@.is_prefix_of(input@.skip(from as int)),
{
    let n: usize = input.unicode_len();
    let w: usize = word.unicode_len();
    if n - from < w {
        return false;
    }
    let ghost tail = input@.skip(from as int);
    let mut j: usize = 0;
    while j < w
        invariant
            j <= w,
            w == word@.len(),
            n == input@.len(),
            from + w <= n,
            tail == input@.skip(from as int),
            forall|k: int| 0 <= k < j ==> word@[k] == #[trigger] tail[k],
        decreases w - j,
    {
        if word.get_char(j) != input.get_char(from + j) {
            proof {
                assert(tail[j as int] == input@[from + j]);
                assert(tail.subrange(0, w as int)[j as int] == tail[j as int]);
            }
            return false;
        }
        j = j + 1;
    }
    assert(word@ =~= tail.subrange(0, w as int));
    true
}

/// `String::push` of the standard library appends one character to the end
/// of the string, as its documentation says.
pub assume_specification[ String::push ](s: &mut String, ch: char)
    ensures
        final(s)@ == old(s)@.push(ch),
;

/// The digit that writes `d`, a number below ten.
pub open spec fn digit_of(d: nat) -> char {
    ('0' as nat + d) as char
}

/// The digits that write `n` in base ten, without leading zeros.
pub open spec fn numeral_of(n: nat) -> Seq<char>
    decreases n,
{
    if n < 10 {
        seq![digit_of(n)]
    } else {
        numeral_of(n / 10).push(digit_of(n % 10))
    }
}

/// What is written for a number is a numeral, and reading it gives the
/// number back.
pub proof fn lemma_numeral_reads_back(n: nat)
    ensures
        numeral_of(n).len() >= 1,
        run(numeral_of(n), CharClass::Digit) == numeral_of(n).len(),
        decimal(numeral_of(n)) == n,
    decreases n,
{
    let digits = numeral_of(n);
    if n < 10 {
        assert(digits.drop_last().len() == 0);
        assert(decimal(digits.drop_last()) == 0);
    } else {
        lemma_numeral_reads_back(n / 10);
        assert(digits.drop_last() =~= numeral_of(n / 10));
    }
    assert forall|i: int| 0 <= i < digits.len() implies CharClass::Digit.holds(
        #[trigger] digits[i],
    ) by {
        if n >= 10 && i < digits.len() - 1 {
            lemma_run_is_maximal(numeral_of(n / 10), CharClass::Digit);
            assert(digits[i] == numeral_of(n / 10)[i]);
        }
    }
    lemma_run_split(digits, CharClass::Digit, digits.len());
    assert(digits.skip(digits.len() as int).len() == 0);
}

/// Appends to `out` the digits that write `n`.
pub fn write_number(out: &mut String, n: u64)
    ensures
        final(out)@ == old(out)@ + numeral_of(n as nat),
    decreases n,
{
    if n >= 10 {
        write_number(out, n / 10);
    }
    let d: u8 = (n % 10) as u8;
    let c: char = (48u8 + d) as char;
    assert(c == digit_of((n % 10) as nat));
    out.push(c);
    proof {
        if n >= 10 {
            assert(old(out)@ + numeral_of((n / 10) as nat).push(c) =~= (old(out)@ + numeral_of(
                (n / 10) as nat,
            )).push(c));
        } else {
            assert(old(out)@ + seq![c] =~= old(out)@.push(c));
        }
    }
}

} // verus!
