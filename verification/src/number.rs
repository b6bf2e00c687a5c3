//! The texts that read as floating-point numbers.

use vstd::prelude::*;
use crate::text::chars_of;

verus! {

pub open spec fn is_digit(c: char) -> bool {
    '0' <= c <= '9'
}

pub open spec fn is_sign(c: char) -> bool {
    c == '+' || c == '-'
}

/// Whether `c` is the lower-case letter `letter` or its upper-case form.
pub open spec fn is_letter(c: char, letter: char) -> bool {
    c == letter || ('A' <= c <= 'Z' && c as u32 + 32 == letter as u32)
}

/// Whether `s` spells the lower-case `word`, in whatever case.
pub open spec fn spells(s: Seq<char>, word: Seq<char>) -> bool {
    &&& s.len() == word.len()
    &&& forall|i: int| 0 <= i < s.len() ==> is_letter(s[i], word[i])
}

/// How many digits `s` starts with.
pub open spec fn leading_digits(s: Seq<char>) -> nat
    decreases s.len(),
{
    if s.len() > 0 && is_digit(s.first()) {
        1 + leading_digits(s.drop_first())
    } else {
        0
    }
}

/// `s` without the sign that it may start with.
pub open spec fn unsigned(s: Seq<char>) -> Seq<char> {
    if s.len() > 0 && is_sign(s.first()) {
        s.drop_first()
    } else {
        s
    }
}

/// An exponent: `e` or `E`, an optional sign, and at least one digit.
pub open spec fn is_exponent(s: Seq<char>) -> bool {
    &&& s.len() > 0
    &&& is_letter(s.first(), 'e')
    &&& {
        let digits = unsigned(s.drop_first());
        digits.len() > 0 && leading_digits(digits) == digits.len()
    }
}

/// A decimal number: digits with at most one point among them, at least one digit in all,
/// and an optional exponent behind them.
pub open spec fn is_decimal(s: Seq<char>) -> bool {
    let whole = leading_digits(s);
    let after_whole = s.skip(whole as int);
    let pointed = after_whole.len() > 0 && after_whole.first() == '.';
    let fraction = if pointed {
        leading_digits(after_whole.drop_first())
    } else {
        0
    };
    let rest = if pointed {
        after_whole.skip(1 + fraction as int)
    } else {
        after_whole
    };
    whole + fraction > 0 && (rest.len() == 0 || is_exponent(rest))
}

/// One of the words for a value that is no number: `inf`, `infinity`, `nan`.
pub open spec fn is_special(s: Seq<char>) -> bool {
    ||| spells(s, seq!['i', 'n', 'f'])
    ||| spells(s, seq!['i', 'n', 'f', 'i', 'n', 'i', 't', 'y'])
    ||| spells(s, seq!['n', 'a', 'n'])
}

/// The texts that read as a 64-bit floating-point value: an optional sign before a
/// decimal number or one of the special words.
pub open spec fn is_float_literal(s: Seq<char>) -> bool {
    is_decimal(unsigned(s)) || is_special(unsigned(s))
}

/// The word `nan` in whatever case, unsigned.
pub open spec fn is_nan_word(s: Seq<char>) -> bool {
    spells(s, seq!['n', 'a', 'n'])
}

proof fn lemma_leading_digits_step(s: Seq<char>, from: int)
    requires
        0 <= from <= s.len(),
    ensures
        from < s.len() && is_digit(s[from]) ==> leading_digits(s.skip(from)) == 1 + leading_digits(
            s.skip(from + 1),
        ),
        from == s.len() || !is_digit(s[from]) ==> leading_digits(s.skip(from)) == 0,
{
    if from < s.len() {
        assert(s.skip(from).first() == s[from]);
        assert(s.skip(from).drop_first() =~= s.skip(from + 1));
    }
}

fn char_is_digit(c: char) -> (b: bool)
    ensures
        b == is_digit(c),
{
    '0' <= c && c <= '9'
}

fn char_is_letter(c: char, letter: char) -> (b: bool)
    ensures
        b == is_letter(c, letter),
{
    c == letter || ('A' <= c && c <= 'Z' && c as u32 + 32 == letter as u32)
}

/// Counts the digits that stand in `s` from index `from` on.
fn count_digits(s: &Vec<char>, from: usize) -> (n: usize)
    requires
        from <= s.len(),
    ensures
        n == leading_digits(s@.skip(from as int)),
        from + n <= s.len(),
{
    let mut at: usize = from;
    while at < s.len() && char_is_digit(s[at])
        invariant
            from <= at <= s.len(),
            leading_digits(s@.skip(from as int)) == (at - from) + leading_digits(
                s@.skip(at as int),
            ),
        decreases s.len() - at,
    {
        proof {
            lemma_leading_digits_step(s@, at as int);
        }
        at = at + 1;
    }
    proof {
        lemma_leading_digits_step(s@, at as int);
    }
    at - from
}

/// Whether the part of `s` from index `from` on spells `word`.
fn tail_spells(s: &Vec<char>, from: usize, word: &Vec<char>) -> (b: bool)
    requires
        from <= s.len(),
    ensures
        b == spells(s@.skip(from as int), word@),
{
    if s.len() - from != word.len() {
        return false;
    }
    let mut i: usize = 0;
    while i < word.len()
        invariant
            from <= s.len(),
            s.len() - from == word.len(),
            i <= word.len(),
            forall|j: int| 0 <= j < i ==> is_letter(s@.skip(from as int)[j], word@[j]),
        decreases word.len() - i,
    {
        if !char_is_letter(s[from + i], word[i]) {
            assert(!is_letter(s@.skip(from as int)[i as int], word@[i as int]));
            return false;
        }
        i = i + 1;
    }
    true
}

/// Whether the part of `s` from index `from` on is an exponent.
fn tail_is_exponent(s: &Vec<char>, from: usize) -> (b: bool)
    requires
        from <= s.len(),
    ensures
        b == is_exponent(s@.skip(from as int)),
{
    if from == s.len() || !char_is_letter(s[from], 'e') {
        return false;
    }
    let ghost tail = s@.skip(from as int);
    assert(tail.drop_first() =~= s@.skip(from + 1));
    let mut at: usize = from + 1;
    if at < s.len() && (s[at] == '+' || s[at] == '-') {
        at = at + 1;
        assert(s@.skip(from + 1).drop_first() =~= s@.skip(at as int));
    }
    assert(unsigned(tail.drop_first()) == s@.skip(at as int));
    let digits = count_digits(s, at);
    digits > 0 && at + digits == s.len()
}

/// Whether the part of `s` from index `from` on is a decimal number.
fn tail_is_decimal(s: &Vec<char>, from: usize) -> (b: bool)
    requires
        from <= s.len(),
    ensures
        b == is_decimal(s@.skip(from as int)),
{
    let ghost tail = s@.skip(from as int);
    let whole = count_digits(s, from);
    let mut at: usize = from + whole;
    assert(tail.skip(whole as int) =~= s@.skip(at as int));
    let mut fraction: usize = 0;
    if at < s.len() && s[at] == '.' {
        assert(s@.skip(at as int).drop_first() =~= s@.skip(at + 1));
        fraction = count_digits(s, at + 1);
        assert(s@.skip(at as int).skip(1 + fraction) =~= s@.skip(at + 1 + fraction));
        at = at + 1 + fraction;
    }
    if whole == 0 && fraction == 0 {
        return false;
    }
    if at == s.len() {
        return true;
    }
    tail_is_exponent(s, at)
}

/// Decides [`is_float_literal`] on characters.
pub fn chars_are_float_literal(s: &Vec<char>) -> (b: bool)
    ensures
        b == is_float_literal(s@),
{
    let mut from: usize = 0;
    if s.len() > 0 && (s[0] == '+' || s[0] == '-') {
        from = 1;
        assert(s@.drop_first() =~= s@.skip(1));
    }
    assert(unsigned(s@) =~= s@.skip(from as int));
    if tail_is_decimal(s, from) {
        return true;
    }
    let inf: Vec<char> = vec!['i', 'n', 'f'];
    let infinity: Vec<char> = vec!['i', 'n', 'f', 'i', 'n', 'i', 't', 'y'];
    let nan: Vec<char> = vec!['n', 'a', 'n'];
    assert(inf@ =~= seq!['i', 'n', 'f']);
    assert(infinity@ =~= seq!['i', 'n', 'f', 'i', 'n', 'i', 't', 'y']);
    assert(nan@ =~= seq!['n', 'a', 'n']);
    tail_spells(s, from, &inf) || tail_spells(s, from, &infinity) || tail_spells(s, from, &nan)
}

/// Decides [`is_nan_word`] on characters.
pub fn chars_are_nan_word(s: &Vec<char>) -> (b: bool)
    ensures
        b == is_nan_word(s@),
{
    let nan: Vec<char> = vec!['n', 'a', 'n'];
    assert(nan@ =~= seq!['n', 'a', 'n']);
    assert(s@.skip(0) =~= s@);
    tail_spells(s, 0, &nan)
}

/// Whether `text` reads as a 64-bit floating-point value.
pub fn is_float_text(text: &str) -> (b: bool)
    ensures
        b == is_float_literal(text@),
{
    let chars = chars_of(text);
    chars_are_float_literal(&chars)
}

} // verus!
