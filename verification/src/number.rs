//! Unsigned decimal and octal numerals as the standard library parses them.

use vstd::prelude::*;
use crate::text::{digit, is_digit};

verus! {

/// Numeric value of one decimal digit character.
pub open spec fn digit_value(c: char) -> int {
    c as int - '0' as int
}

/// Every character is an ASCII decimal digit.
pub open spec fn all_digits(s: Seq<char>) -> bool {
    forall|i: int| 0 <= i < s.len() ==> is_digit(#[trigger] s[i])
}

/// Value of a digit string read in base ten (leading zeros allowed).
pub open spec fn decimal_value(s: Seq<char>) -> int
    decreases s.len(),
{
    if s.len() == 0 {
        0
    } else {
        decimal_value(s.drop_last()) * 10 + digit_value(s.last())
    }
}

/// Value of a digit string read in base eight.
pub open spec fn octal_value(s: Seq<char>) -> int
    decreases s.len(),
{
    if s.len() == 0 {
        0
    } else {
        octal_value(s.drop_last()) * 8 + digit_value(s.last())
    }
}

/// What `str::parse` yields for an unsigned integer type whose largest value is `max`: an
/// optional leading `+`, then one or more ASCII digits whose value does not exceed `max`.
pub open spec fn parse_unsigned_spec(s: Seq<char>, max: int) -> Option<int> {
    let digits = if s.len() > 0 && s[0] == '+' { s.drop_first() } else { s };
    if digits.len() > 0 && all_digits(digits) && decimal_value(digits) <= max {
        Some(decimal_value(digits))
    } else {
        None
    }
}

pub proof fn lemma_decimal_value_nonneg(s: Seq<char>)
    requires
        all_digits(s),
    ensures
        decimal_value(s) >= 0,
    decreases s.len(),
{
    if s.len() > 0 {
        assert(all_digits(s.drop_last()));
        lemma_decimal_value_nonneg(s.drop_last());
    }
}

pub proof fn lemma_octal_value_nonnegative(s: Seq<char>)
    requires
        forall|i: int| 0 <= i < s.len() ==> '0' <= #[trigger] s[i],
    ensures
        octal_value(s) >= 0,
    decreases s.len(),
{
    if s.len() > 0 {
        assert(s.last() == s[s.len() - 1]);
        lemma_octal_value_nonnegative(s.drop_last());
    }
}

pub proof fn lemma_decimal_value_prefix(s: Seq<char>, k: int)
    requires
        all_digits(s),
        0 <= k <= s.len(),
    ensures
        decimal_value(s.take(k)) <= decimal_value(s),
    decreases s.len(),
{
    if k < s.len() {
        assert(all_digits(s.drop_last()));
        assert(s.drop_last().take(k) =~= s.take(k));
        lemma_decimal_value_prefix(s.drop_last(), k);
        lemma_decimal_value_nonneg(s.drop_last());
        assert(is_digit(s[s.len() - 1]));
    } else {
        assert(s.take(k) =~= s);
    }
}

/// Parses an unsigned decimal numeral no greater than `max`.
pub fn parse_unsigned(s: &[char], max: u64) -> (value: Option<u64>)
    ensures
        match value {
            Some(v) => parse_unsigned_spec(s@, max as int) == Some(v as int),
            None => parse_unsigned_spec(s@, max as int) is None,
        },
{
    let start: usize = if s.len() > 0 && s[0] == '+' { 1 } else { 0 };
    let ghost digits = if s@.len() > 0 && s@[0] == '+' { s@.drop_first() } else { s@ };
    assert(digits =~= s@.skip(start as int));
    if start == s.len() {
        return None;
    }
    let mut acc: u64 = 0;
    let mut i: usize = start;
    while i < s.len()
        invariant
            start <= i <= s.len(),
            start < s.len(),
            digits == (if s@.len() > 0 && s@[0] == '+' { s@.drop_first() } else { s@ }),
            digits =~= s@.skip(start as int),
            all_digits(digits.take(i - start)),
            acc as int == decimal_value(digits.take(i - start)),
            acc <= max,
        decreases s.len() - i,
    {
        let c = s[i];
        if !digit(c) {
            assert(digits[i - start] == c);
            return None;
        }
        let d: u64 = (c as u32 - '0' as u32) as u64;
        assert(digits.take(i - start + 1).drop_last() =~= digits.take(i - start));
        if d > max || acc > (max - d) / 10 {
            proof {
                assert(all_digits(digits.take(i - start + 1)));
                if d <= max {
                    assert(acc * 10 + d > max) by (nonlinear_arith)
                        requires
                            acc > (max - d) / 10,
                            d <= max,
                    ;
                }
                lemma_decimal_value_nonneg(digits.take(i - start));
                if all_digits(digits) {
                    assert(digits.take(i - start + 1) =~= digits.take(i - start + 1));
                    lemma_decimal_value_prefix(digits, i - start + 1);
                }
            }
            return None;
        }
        assert(acc * 10 + d <= max) by (nonlinear_arith)
            requires
                acc <= (max - d) / 10,
                d <= max,
        ;
        acc = acc * 10 + d;
        i += 1;
    }
    assert(digits.take(s.len() - start) =~= digits);
    Some(acc)
}

/// Parses a run of ASCII octal digits; `None` when a character is not an octal digit.
pub(crate) fn parse_octal(s: &[char]) -> (value: Option<u64>)
    requires
        s.len() <= 4,
    ensures
        match value {
            Some(v) => (forall|i: int| 0 <= i < s.len() ==> '0' <= #[trigger] s@[i] <= '7') && v as int
                == octal_value(s@),
            None => exists|i: int| 0 <= i < s.len() && !('0' <= #[trigger] s@[i] <= '7'),
        },
{
    let mut acc: u64 = 0;
    let mut i: usize = 0;
    while i < s.len()
        invariant
            i <= s.len() <= 4,
            forall|j: int| 0 <= j < i ==> '0' <= #[trigger] s@[j] <= '7',
            acc as int == octal_value(s@.take(i as int)),
            acc < 8 * 8 * 8 * 8,
            i == 0 ==> acc == 0,
            i == 1 ==> acc < 8,
            i == 2 ==> acc < 64,
            i == 3 ==> acc < 512,
        decreases s.len() - i,
    {
        let c = s[i];
        if !('0' <= c && c <= '7') {
            return None;
        }
        assert(s@.take(i + 1).drop_last() =~= s@.take(i as int));
        acc = acc * 8 + (c as u32 - '0' as u32) as u64;
        i += 1;
    }
    assert(s@.take(s.len() as int) =~= s@);
    Some(acc)
}


/// The decimal digit character for `d` in `0..10`.
pub open spec fn digit_char(d: int) -> char {
    seq!['0', '1', '2', '3', '4', '5', '6', '7', '8', '9'][d]
}

/// The shortest decimal spelling of `n`.
pub open spec fn decimal_text(n: nat) -> Seq<char>
    decreases n,
{
    if n < 10 {
        seq![digit_char(n as int)]
    } else {
        decimal_text(n / 10).push(digit_char((n % 10) as int))
    }
}

pub proof fn lemma_digit_char(d: int)
    requires
        0 <= d < 10,
    ensures
        is_digit(digit_char(d)),
        digit_value(digit_char(d)) == d,
        digit_char(d) != '+',
        digit_char(d) == '0' <==> d == 0,
{
    if d == 0 {
    } else if d == 1 {
    } else if d == 2 {
    } else if d == 3 {
    } else if d == 4 {
    } else if d == 5 {
    } else if d == 6 {
    } else if d == 7 {
    } else if d == 8 {
    } else {
    }
}

/// Reading the decimal spelling of `n` gives `n` back.
pub proof fn lemma_decimal_text_value(n: nat)
    ensures
        all_digits(decimal_text(n)),
        decimal_value(decimal_text(n)) == n,
        decimal_text(n).len() > 0,
        decimal_text(n)[0] != '+',
        decimal_text(n).len() > 1 ==> decimal_text(n)[0] != '0',
    decreases n,
{
    lemma_digit_char((n % 10) as int);
    if n < 10 {
        assert(n % 10 == n);
        assert(decimal_text(n).drop_last() =~= Seq::<char>::empty());
        assert(decimal_value(Seq::<char>::empty()) == 0);
        assert(decimal_value(decimal_text(n)) == digit_value(decimal_text(n).last()));
    }
    if n >= 10 {
        lemma_decimal_text_value(n / 10);
        if n / 10 >= 10 {
            lemma_decimal_text_value(n / 100);
            assert(n / 10 / 10 == n / 100);
        } else {
            lemma_digit_char((n / 10) as int);
        }
        let t = decimal_text(n / 10);
        assert(decimal_text(n).drop_last() =~= t);
        assert forall|i: int| 0 <= i < decimal_text(n).len() implies is_digit(#[trigger] decimal_text(n)[i]) by {
            if i < t.len() {
                assert(decimal_text(n)[i] == t[i]);
            }
        }
        assert(decimal_text(n)[0] == t[0]);
        assert(decimal_value(decimal_text(n)) == decimal_value(t) * 10 + digit_value(digit_char((n % 10) as int)));
        assert((n / 10) * 10 + n % 10 == n);
    }
}

/// Reading the decimal spelling of `n` as an unsigned number bounded by `max >= n` gives `n`.
pub proof fn lemma_parse_decimal_text(n: nat, max: int)
    requires
        n <= max,
    ensures
        parse_unsigned_spec(decimal_text(n), max) == Some(n as int),
{
    lemma_decimal_text_value(n);
}

/// Appends the decimal spelling of `n`.
pub fn push_decimal(out: &mut Vec<char>, n: u64)
    ensures
        final(out)@ == old(out)@ + decimal_text(n as nat),
    decreases n,
{
    if n >= 10 {
        push_decimal(out, n / 10);
    }
    let digits: [char; 10] = ['0', '1', '2', '3', '4', '5', '6', '7', '8', '9'];
    assert(digits@ =~= seq!['0', '1', '2', '3', '4', '5', '6', '7', '8', '9']);
    out.push(digits[(n % 10) as usize]);
    assert(final(out)@ =~= old(out)@ + decimal_text(n as nat));
}
} // verus!
