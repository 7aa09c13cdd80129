//! Decimal numbers as text.
use vstd::prelude::*;

use crate::text::{chars, text_of};

verus! {

// ------------------------------------------------------------ specifications
/// The digit for a number below ten.
pub open spec fn digit(n: int) -> char {
    (('0' as u32) + n) as char
}

/// Whether a character is a decimal digit.
pub open spec fn is_digit(c: char) -> bool {
    '0' <= c && c <= '9'
}

/// The number that a digit stands for.
pub open spec fn digit_value(c: char) -> int {
    c as u32 - '0' as u32
}

/// A number in decimal, without leading zeros.
pub open spec fn decimal(n: nat) -> Seq<char>
    decreases n,
{
    if n < 10 {
        seq![digit(n as int)]
    } else {
        decimal(n / 10).push(digit((n % 10) as int))
    }
}

/// A number in decimal, with a sign where it is negative.
pub open spec fn signed_decimal(n: int) -> Seq<char> {
    if n < 0 {
        seq!['-'] + decimal((-n) as nat)
    } else {
        decimal(n as nat)
    }
}

/// Whether a text consists of digits.
pub open spec fn all_digits(s: Seq<char>) -> bool {
    forall|i: int| 0 <= i < s.len() ==> is_digit(#[trigger] s[i])
}

/// The number that digits stand for.
pub open spec fn digits_value(s: Seq<char>) -> int
    decreases s.len(),
{
    if s.len() == 0 {
        0
    } else {
        digits_value(s.drop_last()) * 10 + digit_value(s.last())
    }
}

/// A text without a leading plus sign.
pub open spec fn unsigned_part(s: Seq<char>) -> Seq<char> {
    if s.len() > 0 && s[0] == '+' {
        s.skip(1)
    } else {
        s
    }
}

/// The number up to `max` that a text stands for: digits, at least one, behind
/// an optional plus sign.
pub open spec fn parsed(s: Seq<char>, max: int) -> Option<int> {
    let d = unsigned_part(s);
    if d.len() > 0 && all_digits(d) && digits_value(d) <= max {
        Some(digits_value(d))
    } else {
        None
    }
}

/// How many digits a text begins with.
pub open spec fn leading_digits(s: Seq<char>) -> nat
    decreases s.len(),
{
    if s.len() > 0 && is_digit(s[0]) {
        1 + leading_digits(s.skip(1))
    } else {
        0
    }
}

/// What is said of a text that stands for no number up to `max`: it is empty, its
/// digits stand for a number that is too large, or something else stands in it.
pub open spec fn not_a_number(s: Seq<char>, max: int) -> Seq<char> {
    let d = unsigned_part(s);
    if s.len() == 0 {
        "cannot parse integer from empty string"@
    } else if digits_value(d.take(leading_digits(d) as int)) > max {
        "number too large to fit in target type"@
    } else {
        "invalid digit found in string"@
    }
}

// ---------------------------------------------------------------------- laws
/// The digits of a number stand for it.
pub proof fn decimal_stands_for_its_number(n: nat)
    ensures
        all_digits(decimal(n)),
        digits_value(decimal(n)) == n,
        decimal(n).len() > 0,
    decreases n,
{
    reveal_with_fuel(digits_value, 2);
    if n < 10 {
        let s = seq![digit(n as int)];
        assert(s.drop_last() =~= Seq::<char>::empty());
        assert(s.last() == digit(n as int));
        assert(digits_value(s) == n);
    } else {
        decimal_stands_for_its_number(n / 10);
        let h = decimal(n / 10);
        let s = h.push(digit((n % 10) as int));
        assert(s.drop_last() =~= h);
        assert forall|i: int| 0 <= i < s.len() implies is_digit(#[trigger] s[i]) by {
            if i < h.len() {
                assert(is_digit(h[i]));
            }
        }
    }
}

/// A number written in decimal is read back.
pub proof fn decimal_round_trip(n: nat, max: int)
    requires
        n <= max,
    ensures
        parsed(decimal(n), max) == Some(n as int),
{
    decimal_stands_for_its_number(n);
    assert(is_digit(decimal(n)[0]));
    assert(unsigned_part(decimal(n)) == decimal(n));
}

// ---------------------------------------------------------------- operations
/// A number in decimal.
pub fn u64_text(n: u64) -> (s: String)
    ensures
        s@ == decimal(n as nat),
    decreases n,
{
    if n < 10 {
        let mut s = String::new();
        s.push(digit_char(n as u8));
        assert(s@ =~= seq![digit(n as int)]);
        s
    } else {
        let mut s = u64_text(n / 10);
        s.push(digit_char((n % 10) as u8));
        s
    }
}

fn digit_char(n: u8) -> (c: char)
    requires
        n < 10,
    ensures
        c == digit(n as int),
{
    (48u8 + n) as char
}

/// A number in decimal, with a sign where it is negative.
pub fn i64_text(n: i64) -> (s: String)
    ensures
        s@ == signed_decimal(n as int),
{
    if n < 0 {
        let magnitude: u64 = (-(n as i128)) as u64;
        let mut s = String::new();
        s.push('-');
        assert(s@ =~= seq!['-']);
        let digits = u64_text(magnitude);
        s.append(digits.as_str());
        s
    } else {
        u64_text(n as u64)
    }
}

proof fn lemma_value_grows(d: Seq<char>, i: int)
    requires
        0 <= i <= d.len(),
        all_digits(d),
    ensures
        0 <= digits_value(d.take(i)) <= digits_value(d),
    decreases d.len() - i,
{
    if i < d.len() {
        lemma_value_grows(d, i + 1);
        assert(d.take(i + 1).drop_last() =~= d.take(i));
        assert(d.take(i + 1).last() == d[i]);
        assert(is_digit(d[i]));
        lemma_value_natural(d.take(i));
    } else {
        assert(d.take(i) =~= d);
        lemma_value_natural(d);
    }
}

proof fn lemma_value_natural(d: Seq<char>)
    requires
        all_digits(d),
    ensures
        digits_value(d) >= 0,
    decreases d.len(),
{
    if d.len() > 0 {
        let h = d.drop_last();
        assert forall|i: int| 0 <= i < h.len() implies is_digit(#[trigger] h[i]) by {
            assert(is_digit(d[i]));
        }
        lemma_value_natural(h);
        assert(is_digit(d[d.len() - 1]));
    }
}

/// The number up to `max` that a text stands for.
pub fn parse_number(s: &str, max: u64) -> (r: Option<u64>)
    ensures
        match r {
            Some(n) => parsed(s@, max as int) == Some(n as int),
            None => parsed(s@, max as int) is None,
        },
{
    let v = chars(s);
    let start: usize = if v.len() > 0 && v[0] == '+' {
        1
    } else {
        0
    };
    let ghost d = unsigned_part(s@);
    assert(d =~= s@.skip(start as int));
    if start == v.len() {
        return None;
    }
    let mut n: u64 = 0;
    let mut i: usize = start;
    assert(d.take(0) =~= Seq::<char>::empty());
    while i < v.len()
        invariant
            start <= i <= v.len(),
            start <= 1,
            v@ == s@,
            d == unsigned_part(s@),
            d == s@.skip(start as int),
            n <= max,
            n == digits_value(d.take(i - start)),
            forall|k: int| 0 <= k < i - start ==> is_digit(#[trigger] d[k]),
        decreases v.len() - i,
    {
        let c = v[i];
        assert(d[i - start] == c);
        if c < '0' || c > '9' {
            assert(!is_digit(d[i - start]));
            return None;
        }
        let k: u64 = (c as u32 - '0' as u32) as u64;
        proof {
            assert(d.take(i - start + 1).drop_last() =~= d.take(i - start));
            assert(d.take(i - start + 1).last() == c);
        }
        let next: u128 = n as u128 * 10 + k as u128;
        if next > max as u128 {
            proof {
                if all_digits(d) {
                    lemma_value_grows(d, i - start + 1);
                }
            }
            return None;
        }
        n = next as u64;
        i += 1;
    }
    assert(d.take(i - start) =~= d);
    Some(n)
}

proof fn lemma_leading_digits(s: Seq<char>, n: int)
    requires
        0 <= n <= s.len(),
        forall|k: int| 0 <= k < n ==> is_digit(#[trigger] s[k]),
        n < s.len() ==> !is_digit(s[n]),
    ensures
        leading_digits(s) == n,
    decreases s.len(),
{
    if n > 0 {
        assert(is_digit(s[0]));
        let t = s.skip(1);
        assert forall|k: int| 0 <= k < n - 1 implies is_digit(#[trigger] t[k]) by {
            assert(is_digit(s[k + 1]));
        }
        lemma_leading_digits(t, n - 1);
    }
}

/// What is said of a text that stands for no number up to `max`.
pub fn number_error(s: &str, max: u64) -> (e: String)
    ensures
        e@ == not_a_number(s@, max as int),
{
    let v = chars(s);
    if v.len() == 0 {
        return "cannot parse integer from empty string".to_owned();
    }
    let start: usize = if v[0] == '+' {
        1
    } else {
        0
    };
    let ghost d = unsigned_part(s@);
    assert(d =~= s@.skip(start as int));
    let mut i: usize = start;
    while i < v.len() && '0' <= v[i] && v[i] <= '9'
        invariant
            start <= i <= v.len(),
            v@ == s@,
            d == s@.skip(start as int),
            forall|k: int| 0 <= k < i - start ==> is_digit(#[trigger] d[k]),
        decreases v.len() - i,
    {
        assert(d[i - start] == v@[i as int]);
        i += 1;
    }
    let digits = text_of(&v, start, i);
    proof {
        if i < v.len() {
            assert(d[i - start] == v@[i as int]);
        }
        lemma_leading_digits(d, i - start);
        assert(digits@ =~= d.take(i - start));
        if i > start {
            assert(is_digit(d[0]));
        }
        assert(unsigned_part(digits@) =~= digits@);
        assert(all_digits(digits@)) by {
            assert forall|k: int| 0 <= k < digits@.len() implies is_digit(
                #[trigger] digits@[k],
            ) by {
                assert(digits@[k] == d[k]);
            }
        }
    }
    if i > start && parse_number(digits.as_str(), max).is_none() {
        return "number too large to fit in target type".to_owned();
    }
    proof {
        if i == start {
            assert(d.take(0) =~= Seq::<char>::empty());
        }
    }
    "invalid digit found in string".to_owned()
}

} // verus!
