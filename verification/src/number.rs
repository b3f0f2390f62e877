//! Decimal numbers as text.

use crate::text::chars_of;
use vstd::prelude::*;

verus! {

/// The decimal digit of a number below ten.
pub open spec fn digit(d: nat) -> char {
    (48 + d) as char
}

/// A number in decimal, without leading zeros.
pub open spec fn decimal(n: nat) -> Seq<char>
    decreases n,
{
    if n < 10 {
        seq![digit(n)]
    } else {
        decimal(n / 10).push(digit(n % 10))
    }
}

/// The character is one of the ten decimal digits.
pub open spec fn is_digit(c: char) -> bool {
    '0' <= c <= '9'
}

/// Every character is a decimal digit.
pub open spec fn all_digits(s: Seq<char>) -> bool {
    forall|i: int| 0 <= i < s.len() ==> is_digit(#[trigger] s[i])
}

/// The number that a sequence of decimal digits writes.
pub open spec fn digits_value(s: Seq<char>) -> nat
    decreases s.len(),
{
    if s.len() == 0 {
        0
    } else {
        10 * digits_value(s.drop_last()) + (s.last() as nat - 48) as nat
    }
}

/// A number's decimal text is made of digits and writes that number.
pub proof fn decimal_writes_its_number(n: nat)
    ensures
        decimal(n).len() > 0,
        all_digits(decimal(n)),
        digits_value(decimal(n)) == n,
    decreases n,
{
    if n < 10 {
        assert(decimal(n).drop_last() =~= Seq::<char>::empty());
        assert(digits_value(Seq::<char>::empty()) == 0);
        assert(decimal(n).last() == digit(n));
    } else {
        decimal_writes_its_number(n / 10);
        assert(decimal(n).drop_last() =~= decimal(n / 10));
        assert(decimal(n).last() == digit(n % 10));
    }
}

/// Different numbers have different decimal texts.
pub proof fn decimal_is_injective(a: nat, b: nat)
    requires
        decimal(a) == decimal(b),
    ensures
        a == b,
{
    decimal_writes_its_number(a);
    decimal_writes_its_number(b);
}

/// The decimal text of a number.
pub fn decimal_text(n: u128) -> (r: String)
    ensures
        r@ == decimal(n as nat),
{
    let mut reversed: Vec<char> = Vec::new();
    let mut rest: u128 = n;
    while rest >= 10
        invariant
            decimal(n as nat) == decimal(rest as nat) + reversed@.reverse(),
        decreases rest,
    {
        let ghost before = reversed@;
        let d: u8 = (rest % 10) as u8;
        reversed.push((48 + d) as char);
        proof {
            assert(digit((rest % 10) as nat) == (48 + d) as char);
            assert(reversed@.reverse() =~= seq![digit((rest % 10) as nat)] + before.reverse());
            assert(decimal(rest as nat) + before.reverse() =~= decimal((rest / 10) as nat)
                + reversed@.reverse());
        }
        rest = rest / 10;
    }
    let d: u8 = rest as u8;
    let ghost before = reversed@;
    reversed.push((48 + d) as char);
    proof {
        assert(digit(rest as nat) == (48 + d) as char);
        assert(reversed@.reverse() =~= decimal(rest as nat) + before.reverse());
    }
    let mut out: String = String::new();
    let mut left: usize = reversed.len();
    while left > 0
        invariant
            left <= reversed@.len(),
            out@ == reversed@.reverse().take(reversed@.len() - left),
        decreases left,
    {
        out.push(reversed[left - 1]);
        proof {
            let all = reversed@.reverse();
            let done = reversed@.len() - left;
            assert(all[done] == reversed@[left - 1]);
            assert(all.take(done + 1) =~= all.take(done).push(all[done]));
        }
        left -= 1;
    }
    assert(out@ =~= reversed@.reverse());
    out
}

/// The number that a text writes as an index: an optional plus sign and one or more decimal
/// digits, within the range of `usize`.
pub open spec fn index_value(s: Seq<char>) -> Option<usize> {
    let digits = if s.len() > 0 && s[0] == '+' {
        s.drop_first()
    } else {
        s
    };
    if digits.len() > 0 && all_digits(digits) && digits_value(digits) <= usize::MAX {
        Some(digits_value(digits) as usize)
    } else {
        None
    }
}

proof fn lemma_digits_value_grows(s: Seq<char>, n: int)
    requires
        0 <= n <= s.len(),
    ensures
        digits_value(s.take(n)) <= digits_value(s),
    decreases s.len() - n,
{
    if n == s.len() {
        assert(s.take(n) =~= s);
    } else {
        lemma_digits_value_grows(s, n + 1);
        assert(s.take(n + 1).drop_last() =~= s.take(n));
    }
}

/// Reads a text as an index.
pub fn parse_index(s: &str) -> (r: Option<usize>)
    ensures
        r == index_value(s@),
{
    let chars = chars_of(s);
    let from: usize = if chars.len() > 0 && chars[0] == '+' {
        1
    } else {
        0
    };
    let ghost digits = chars@.skip(from as int);
    proof {
        if from == 1 {
            assert(digits =~= s@.drop_first());
        } else {
            assert(digits =~= s@);
        }
    }
    if from == chars.len() {
        return None;
    }
    let mut value: usize = 0;
    let mut i: usize = from;
    assert(digits.take(0) =~= Seq::<char>::empty());
    while i < chars.len()
        invariant
            from <= i <= chars@.len(),
            digits == chars@.skip(from as int),
            value == digits_value(digits.take(i - from)),
            forall|j: int| 0 <= j < i - from ==> is_digit(#[trigger] digits[j]),
            index_value(s@) == (if digits.len() > 0 && all_digits(digits) && digits_value(digits)
                <= usize::MAX {
                Some(digits_value(digits) as usize)
            } else {
                None
            }),
        decreases chars@.len() - i,
    {
        let c = chars[i];
        assert(c == digits[i - from]);
        if !('0' <= c && c <= '9') {
            assert(!is_digit(digits[i - from]));
            return None;
        }
        let d: usize = (c as u32 - 48) as usize;
        proof {
            let seen = digits.take(i - from + 1);
            assert(seen.drop_last() =~= digits.take(i - from));
            assert(seen.last() == c);
            assert(digits_value(seen) == 10 * value + d);
            lemma_digits_value_grows(digits, i - from + 1);
        }
        if value > (usize::MAX - d) / 10 {
            return None;
        }
        value = 10 * value + d;
        i += 1;
    }
    assert(digits.take(i - from) =~= digits);
    Some(value)
}

/// The ten digits stand for the numbers below ten, and every further digit weighs ten times less
/// than the one before it.
pub proof fn digits_weigh_by_their_place(s: Seq<char>, c: char)
    ensures
        is_digit(c) <==> 48 <= c as int <= 57,
        all_digits(s) <==> forall|i: int| 0 <= i < s.len() ==> 48 <= (#[trigger] s[i]) as int <= 57,
        digits_value(Seq::<char>::empty()) == 0,
        is_digit(c) ==> digits_value(s.push(c)) == 10 * digits_value(s) + (c as int - 48),
{
    assert(s.push(c).drop_last() =~= s);
    if all_digits(s) {
        assert forall|i: int| 0 <= i < s.len() implies 48 <= (#[trigger] s[i]) as int <= 57 by {
            assert(is_digit(s[i]));
        }
    }
    if forall|i: int| 0 <= i < s.len() ==> 48 <= (#[trigger] s[i]) as int <= 57 {
        assert forall|i: int| 0 <= i < s.len() implies is_digit(#[trigger] s[i]) by {}
    }
}

proof fn lemma_leading_digit_counts(s: Seq<char>)
    requires
        s.len() > 0,
        all_digits(s),
        s[0] != '0',
    ensures
        digits_value(s) > 0,
    decreases s.len(),
{
    assert(is_digit(s[0]));
    if s.len() == 1 {
        assert(s.drop_last() =~= Seq::<char>::empty());
        assert(s.last() == s[0]);
    } else {
        let shorter = s.drop_last();
        assert forall|i: int| 0 <= i < shorter.len() implies is_digit(#[trigger] shorter[i]) by {
            assert(shorter[i] == s[i]);
        }
        assert(shorter[0] == s[0]);
        lemma_leading_digit_counts(shorter);
    }
}

/// The decimal text of a number is the one sequence of digits without a leading zero that writes
/// it; zero is written `0`.
pub proof fn a_number_has_one_decimal_text(n: nat, s: Seq<char>)
    ensures
        all_digits(s) && s.len() > 0 && (s.len() > 1 ==> s[0] != '0') && digits_value(s) == n ==> s
            == decimal(n),
        decimal(n).len() > 1 ==> decimal(n)[0] != '0',
    decreases n,
{
    if n >= 10 {
        a_number_has_one_decimal_text(n / 10, s.drop_last());
        decimal_writes_its_number(n / 10);
        if decimal(n / 10).len() > 1 {
            assert(decimal(n)[0] == decimal(n / 10)[0]);
        } else {
            assert(decimal(n)[0] == decimal(n / 10)[0]);
            assert(n / 10 < 10) by {
                if n / 10 >= 10 {
                    decimal_writes_its_number(n / 100);
                    assert((n / 10) / 10 == n / 100);
                }
            }
            assert(decimal(n)[0] == digit(n / 10));
        }
    }
    if all_digits(s) && s.len() > 0 && (s.len() > 1 ==> s[0] != '0') && digits_value(s) == n {
        let shorter = s.drop_last();
        assert(is_digit(s[s.len() - 1]));
        assert forall|i: int| 0 <= i < shorter.len() implies is_digit(#[trigger] shorter[i]) by {
            assert(shorter[i] == s[i]);
        }
        let d = (s.last() as nat - 48) as nat;
        assert(n == 10 * digits_value(shorter) + d && d < 10);
        if s.len() == 1 {
            assert(shorter =~= Seq::<char>::empty());
            assert(s =~= decimal(n));
        } else {
            assert(shorter[0] == s[0]);
            lemma_leading_digit_counts(shorter);
            assert(n >= 10);
            assert(n / 10 == digits_value(shorter) && n % 10 == d);
            assert(shorter == decimal(n / 10));
            assert(s =~= shorter.push(s.last()));
            assert(s.last() == digit(d));
        }
    }
}

/// An index is written with one or more digits, with or without a plus sign before them, and is
/// what they write, as far as a `usize` reaches. Nothing else is an index.
pub proof fn an_index_is_digits_behind_an_optional_plus(s: Seq<char>, digits: Seq<char>)
    requires
        digits.len() > 0,
        forall|i: int| 0 <= i < digits.len() ==> 48 <= (#[trigger] digits[i]) as int <= 57,
    ensures
        index_value(digits) == index_value(seq!['+'] + digits),
        index_value(digits) == if digits_value(digits) <= usize::MAX {
            Some(digits_value(digits) as usize)
        } else {
            None
        },
        index_value(s) is Some ==> s.len() > 0 && (s[0] == '+' || 48 <= s[0] as int <= 57) && (s[0]
            == '+' ==> s.len() > 1) && forall|i: int|
            1 <= i < s.len() ==> 48 <= (#[trigger] s[i]) as int <= 57,
{
    digits_weigh_by_their_place(digits, '0');
    assert((seq!['+'] + digits).drop_first() =~= digits);
    if index_value(s) is Some {
        let part = if s[0] == '+' {
            s.drop_first()
        } else {
            s
        };
        assert(is_digit(part[0]));
        assert forall|i: int| 1 <= i < s.len() implies 48 <= (#[trigger] s[i]) as int <= 57 by {
            if s[0] == '+' {
                assert(part[i - 1] == s[i]);
            } else {
                assert(part[i] == s[i]);
            }
        }
    }
}

} // verus!
