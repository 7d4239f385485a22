//! Numbers: the JSON grammar of a number, and the plain unsigned integers
//! among them.

use vstd::prelude::*;

verus! {

/// Whether `c` is a decimal digit.
pub open spec fn is_digit(c: char) -> bool {
    '0' <= c && c <= '9'
}

/// How many decimal digits stand at the front of `input`.
pub open spec fn digit_run(input: Seq<char>) -> nat
    decreases input.len(),
{
    if input.len() > 0 && is_digit(input[0]) {
        1 + digit_run(input.drop_first())
    } else {
        0
    }
}

/// The length of the integer part of a number at the front of `input`: an
/// optional minus sign, then a zero or a run of digits that starts with
/// none.
pub open spec fn integer_len(input: Seq<char>) -> Option<nat> {
    let sign: nat = if input.len() > 0 && input[0] == '-' {
        1
    } else {
        0
    };
    let digits = input.skip(sign as int);
    if digits.len() == 0 || !is_digit(digits[0]) {
        None
    } else if digits[0] == '0' {
        Some(sign + 1)
    } else {
        Some(sign + digit_run(digits))
    }
}

/// The length of the fraction at the front of `input`: nothing, or a point
/// and at least one digit.
pub open spec fn fraction_len(input: Seq<char>) -> Option<nat> {
    if input.len() > 0 && input[0] == '.' {
        if digit_run(input.drop_first()) == 0 {
            None
        } else {
            Some(1 + digit_run(input.drop_first()))
        }
    } else {
        Some(0)
    }
}

/// The length of the exponent at the front of `input`: nothing, or `e` or
/// `E`, an optional sign and at least one digit.
pub open spec fn exponent_len(input: Seq<char>) -> Option<nat> {
    if input.len() > 0 && (input[0] == 'e' || input[0] == 'E') {
        let sign: nat = if input.len() > 1 && (input[1] == '+' || input[1] == '-') {
            1
        } else {
            0
        };
        if digit_run(input.skip(1 + sign as int)) == 0 {
            None
        } else {
            Some(1 + sign + digit_run(input.skip(1 + sign as int)))
        }
    } else {
        Some(0)
    }
}

/// The length of the number at the front of `input`, if one stands there.
pub open spec fn number_len(input: Seq<char>) -> Option<nat> {
    match integer_len(input) {
        None => None,
        Some(whole) => match fraction_len(input.skip(whole as int)) {
            None => None,
            Some(fraction) => match exponent_len(input.skip(whole as int + fraction as int)) {
                None => None,
                Some(exponent) => Some(whole + fraction + exponent),
            },
        },
    }
}

/// The number that a run of decimal digits spells.
pub open spec fn decimal_value(digits: Seq<char>) -> nat
    decreases digits.len(),
{
    if digits.len() == 0 {
        0
    } else {
        decimal_value(digits.drop_last()) * 10 + (digits.last() as u32 - '0' as u32) as nat
    }
}

/// The number at the front of `input`, where it is written as a plain
/// unsigned integer: no sign, no fraction, no exponent.
pub open spec fn unsigned_value(input: Seq<char>) -> Option<nat> {
    if input.len() > 0 && is_digit(input[0]) && number_len(input) == integer_len(input) {
        Some(decimal_value(input.take(integer_len(input)->0 as int)))
    } else {
        None
    }
}

/// The index after the run of digits that starts at `i`.
pub(crate) fn scan_digits(s: &[char], i: usize) -> (j: usize)
    requires
        i <= s.len(),
    ensures
        i <= j <= s.len(),
        j - i == digit_run(s@.skip(i as int)),
        forall|m: int| i <= m < j ==> is_digit(#[trigger] s@[m]),
{
    let mut j: usize = i;
    while j < s.len() && '0' <= s[j] && s[j] <= '9'
        invariant
            i <= j <= s.len(),
            digit_run(s@.skip(i as int)) == (j - i) + digit_run(s@.skip(j as int)),
            forall|m: int| i <= m < j ==> is_digit(#[trigger] s@[m]),
        decreases s.len() - j,
    {
        proof {
            assert(s@.skip(j as int).drop_first() =~= s@.skip(j as int + 1));
        }
        j += 1;
    }
    j
}

pub(crate) fn integer_end(s: &[char], i: usize) -> (r: Option<usize>)
    requires
        i <= s.len(),
    ensures
        match integer_len(s@.skip(i as int)) {
            Some(n) => r == Some((i + n) as usize) && i + n <= s.len() && n > 0,
            None => r is None,
        },
        r is Some && s@[i as int] != '-' ==> forall|m: int|
            i <= m < r->0 ==> is_digit(#[trigger] s@[m]),
{
    let start: usize = if i < s.len() && s[i] == '-' {
        i + 1
    } else {
        i
    };
    proof {
        assert(s@.skip(i as int).skip(start - i) =~= s@.skip(start as int));
    }
    if start >= s.len() || !('0' <= s[start] && s[start] <= '9') {
        None
    } else if s[start] == '0' {
        Some(start + 1)
    } else {
        Some(scan_digits(s, start))
    }
}

fn fraction_end(s: &[char], i: usize) -> (r: Option<usize>)
    requires
        i <= s.len(),
    ensures
        match fraction_len(s@.skip(i as int)) {
            Some(n) => r == Some((i + n) as usize) && i + n <= s.len(),
            None => r is None,
        },
{
    if i < s.len() && s[i] == '.' {
        proof {
            assert(s@.skip(i as int).drop_first() =~= s@.skip(i as int + 1));
        }
        let end = scan_digits(s, i + 1);
        if end == i + 1 {
            None
        } else {
            Some(end)
        }
    } else {
        Some(i)
    }
}

fn exponent_end(s: &[char], i: usize) -> (r: Option<usize>)
    requires
        i <= s.len(),
    ensures
        match exponent_len(s@.skip(i as int)) {
            Some(n) => r == Some((i + n) as usize) && i + n <= s.len(),
            None => r is None,
        },
{
    if i < s.len() && (s[i] == 'e' || s[i] == 'E') {
        let start: usize = if i + 1 < s.len() && (s[i + 1] == '+' || s[i + 1] == '-') {
            i + 2
        } else {
            i + 1
        };
        proof {
            assert(s@.skip(i as int).skip(start - i) =~= s@.skip(start as int));
        }
        let end = scan_digits(s, start);
        if end == start {
            None
        } else {
            Some(end)
        }
    } else {
        Some(i)
    }
}

/// The index after the number that starts at `i`, if one stands there.
pub(crate) fn number_end(s: &[char], i: usize) -> (r: Option<usize>)
    requires
        i <= s.len(),
    ensures
        match number_len(s@.skip(i as int)) {
            Some(n) => r == Some((i + n) as usize) && i + n <= s.len() && n > 0,
            None => r is None,
        },
{
    let whole = match integer_end(s, i) {
        None => {
            return None;
        },
        Some(j) => j,
    };
    proof {
        assert(s@.skip(i as int).skip(whole - i) =~= s@.skip(whole as int));
    }
    let fraction = match fraction_end(s, whole) {
        None => {
            return None;
        },
        Some(j) => j,
    };
    proof {
        assert(s@.skip(i as int).skip((whole - i) + (fraction - whole)) =~= s@.skip(
            fraction as int,
        ));
    }
    exponent_end(s, fraction)
}

/// A longer run of digits spells no smaller a number.
pub proof fn lemma_decimal_value_grows(digits: Seq<char>, n: int)
    requires
        0 <= n <= digits.len(),
    ensures
        decimal_value(digits.take(n)) <= decimal_value(digits),
    decreases digits.len() - n,
{
    if n < digits.len() {
        lemma_decimal_value_grows(digits.drop_last(), n);
        assert(digits.drop_last().take(n) =~= digits.take(n));
    } else {
        assert(digits.take(n) =~= digits);
    }
}

/// The number that starts at index `i`, where it is written as a plain
/// unsigned integer and is no greater than `max`.
pub(crate) fn read_unsigned(s: &[char], i: usize, max: u64) -> (r: Option<u64>)
    requires
        i <= s.len(),
    ensures
        r == (match unsigned_value(s@.skip(i as int)) {
            Some(n) => if n <= max {
                Some(n as u64)
            } else {
                None
            },
            None => None,
        }),
{
    if i >= s.len() || !('0' <= s[i] && s[i] <= '9') {
        return None;
    }
    let end = match integer_end(s, i) {
        None => {
            return None;
        },
        Some(end) => end,
    };
    match number_end(s, i) {
        None => {
            return None;
        },
        Some(all) => {
            if all != end {
                return None;
            }
        },
    }
    let ghost digits = s@.skip(i as int).take(end - i);
    let mut value: u64 = 0;
    let mut k: usize = i;
    proof {
        assert(s@.skip(i as int)[0] == s@[i as int]);
        assert(unsigned_value(s@.skip(i as int)) == Some(decimal_value(digits)));
    }
    while k < end
        invariant
            i <= k <= end <= s.len(),
            digits == s@.skip(i as int).take(end - i),
            unsigned_value(s@.skip(i as int)) == Some(decimal_value(digits)),
            forall|m: int| i <= m < end ==> is_digit(#[trigger] s@[m]),
            value == decimal_value(digits.take(k - i)),
            value <= max,
        decreases end - k,
    {
        let digit: u64 = (s[k] as u32 - '0' as u32) as u64;
        proof {
            let taken = digits.take(k - i + 1);
            assert(taken.drop_last() =~= digits.take(k - i));
            assert(taken.last() == s@[k as int]);
            assert(decimal_value(taken) == value * 10 + digit);
            lemma_decimal_value_grows(digits, k - i + 1);
            if value > max / 10 || (value == max / 10 && digit > max % 10) {
                assert(value * 10 + digit > max);
            }
        }
        if value > max / 10 || (value == max / 10 && digit > max % 10) {
            return None;
        }
        value = value * 10 + digit;
        k += 1;
    }
    proof {
        assert(digits.take(end - i) =~= digits);
    }
    Some(value)
}

} // verus!
