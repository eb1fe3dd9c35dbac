//! Decimal numerals: what counts as one, what it denotes, and how to read a
//! machine-sized index from one.

use vstd::prelude::*;
use vstd::string::*;
use vstd::utf8::is_ascii_chars;

verus! {

/// One of the characters `0` to `9`.
pub open spec fn is_decimal_digit(c: char) -> bool {
    '0' <= c && c <= '9'
}

/// The number a decimal digit stands for; zero for any other character.
pub open spec fn digit_value(c: char) -> nat {
    if is_decimal_digit(c) {
        (c as nat - '0' as nat) as nat
    } else {
        0
    }
}

/// A decimal numeral is a non-empty string of decimal digits.  Leading zeros
/// are allowed; signs, separators, radix prefixes and blanks are not.
pub open spec fn is_decimal_numeral(s: Seq<char>) -> bool {
    s.len() > 0 && forall|i: int| 0 <= i < s.len() ==> is_decimal_digit(#[trigger] s[i])
}

/// The number denoted by a string of digits, most significant first.
pub open spec fn decimal_value(s: Seq<char>) -> nat
    decreases s.len(),
{
    if s.len() == 0 {
        0
    } else {
        decimal_value(s.drop_last()) * 10 + digit_value(s.last())
    }
}

/// The digits of an index numeral: the string itself, without a leading `+`
/// if it has one.
pub open spec fn index_digits(s: Seq<char>) -> Seq<char> {
    if s.len() > 0 && s[0] == '+' {
        s.subrange(1, s.len() as int)
    } else {
        s
    }
}

/// The index a string denotes: the value of its digits when they form a
/// decimal numeral whose value fits the machine word, and nothing otherwise.
pub open spec fn index_of_numeral(s: Seq<char>) -> Option<usize> {
    if is_decimal_numeral(index_digits(s)) && decimal_value(index_digits(s)) <= usize::MAX {
        Some(decimal_value(index_digits(s)) as usize)
    } else {
        None
    }
}

/// A numeral is worth at least as much as any of its prefixes.
pub proof fn lemma_decimal_value_prefix(s: Seq<char>, k: int)
    requires
        0 <= k <= s.len(),
    ensures
        decimal_value(s.take(k)) <= decimal_value(s),
    decreases s.len(),
{
    if k == s.len() {
        assert(s.take(k) =~= s);
    } else {
        lemma_decimal_value_prefix(s.drop_last(), k);
        assert(s.drop_last().take(k) =~= s.take(k));
    }
}

/// Appending one character multiplies the value by ten and adds the digit.
pub proof fn lemma_decimal_value_step(s: Seq<char>, k: int)
    requires
        0 <= k < s.len(),
    ensures
        decimal_value(s.take(k + 1)) == decimal_value(s.take(k)) * 10 + digit_value(s[k]),
{
    assert(s.take(k + 1).drop_last() =~= s.take(k));
}

/// Whether `text` is a decimal numeral.
pub fn is_decimal(text: &str) -> (r: bool)
    ensures
        r == is_decimal_numeral(text@),
{
    if !text.is_ascii() {
        return false;
    }
    proof {
        is_ascii_spec_bytes(text);
    }
    let bytes = text.as_bytes();
    let n = bytes.len();
    if n == 0 {
        return false;
    }
    let mut i: usize = 0;
    while i < n
        invariant
            i <= n,
            n == bytes@.len(),
            n == text@.len(),
            forall|j: int| 0 <= j < n ==> bytes@[j] == (#[trigger] text@[j]) as u8,
            is_ascii_chars(text@),
            forall|j: int| 0 <= j < i ==> is_decimal_digit(#[trigger] text@[j]),
        decreases n - i,
    {
        let b = bytes[i];
        if b < 48 || b > 57 {
            assert(!is_decimal_digit(text@[i as int]));
            return false;
        }
        i += 1;
    }
    true
}

/// Reads an index from a numeral: an optional `+`, then decimal digits.
/// Anything else, and any value beyond the machine word, gives `None`.
pub fn parse_index(text: &str) -> (r: Option<usize>)
    ensures
        r == index_of_numeral(text@),
{
    if !text.is_ascii() {
        proof {
            let s = text@;
            let bad = choose|i: int| 0 <= i < s.len() && !('\0' <= #[trigger] s[i] && s[i] <= '\u{7f}');
            let d = index_digits(s);
            if d.len() != s.len() {
                assert(!is_decimal_digit(d[bad - 1]));
            }
        }
        return None;
    }
    proof {
        is_ascii_spec_bytes(text);
    }
    let bytes = text.as_bytes();
    let n = bytes.len();
    let start: usize = if n > 0 && bytes[0] == 43 {
        1
    } else {
        0
    };
    let ghost digits = index_digits(text@);
    if start == n {
        return None;
    }
    let mut acc: usize = 0;
    let mut i: usize = start;
    while i < n
        invariant
            start <= i <= n,
            n == bytes@.len(),
            n == text@.len(),
            digits == index_digits(text@),
            digits == text@.subrange(start as int, n as int),
            digits.len() == n - start,
            forall|j: int| 0 <= j < n ==> bytes@[j] == (#[trigger] text@[j]) as u8,
            is_ascii_chars(text@),
            forall|j: int| 0 <= j < i - start ==> is_decimal_digit(#[trigger] digits[j]),
            acc == decimal_value(digits.take(i - start)),
        decreases n - i,
    {
        let b = bytes[i];
        let ghost k = i - start;
        if b < 48 || b > 57 {
            assert(!is_decimal_digit(digits[k]));
            return None;
        }
        let d: usize = (b - 48) as usize;
        proof {
            lemma_decimal_value_step(digits, k);
            lemma_decimal_value_prefix(digits, k + 1);
        }
        let next = match acc.checked_mul(10) {
            Some(scaled) => scaled.checked_add(d),
            None => None,
        };
        match next {
            Some(v) => {
                acc = v;
            },
            None => {
                return None;
            },
        }
        i += 1;
    }
    assert(digits.take(n - start) =~= digits);
    Some(acc)
}

} // verus!
