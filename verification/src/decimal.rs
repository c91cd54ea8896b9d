//! Unsigned integers as decimal text.

use vstd::prelude::*;

verus! {

/// The digit that stands for `d`, a number below ten.
pub open spec fn digit(d: nat) -> char {
    ('0' as u8 + d) as u8 as char
}

/// The decimal digits of `n`, without leading zeros.
pub open spec fn digits(n: nat) -> Seq<char>
    decreases n,
{
    if n < 10 {
        seq![digit(n)]
    } else {
        digits(n / 10).push(digit(n % 10))
    }
}

pub open spec fn is_digit(c: char) -> bool {
    '0' <= c <= '9'
}

pub open spec fn all_digits(s: Seq<char>) -> bool {
    forall|i: int| 0 <= i < s.len() ==> is_digit(#[trigger] s[i])
}

/// The number that a run of decimal digits stands for.
pub open spec fn digits_value(s: Seq<char>) -> nat
    decreases s.len(),
{
    if s.len() == 0 {
        0
    } else {
        10 * digits_value(s.drop_last()) + (s.last() as u8 - '0' as u8) as nat
    }
}

/// The 64-bit number written as `s`: decimal digits, at least one, with an optional `+` before
/// them. `None` when `s` is anything else, or the number does not fit.
pub open spec fn parsed_u64(s: Seq<char>) -> Option<u64> {
    let run = if s.len() > 0 && s[0] == '+' {
        s.skip(1)
    } else {
        s
    };
    if run.len() > 0 && all_digits(run) && digits_value(run) <= u64::MAX {
        Some(digits_value(run) as u64)
    } else {
        None
    }
}

proof fn lemma_digit(d: nat)
    requires
        d < 10,
    ensures
        is_digit(digit(d)),
        (digit(d) as u8 - '0' as u8) == d,
{
}

proof fn lemma_digits(n: nat)
    ensures
        digits(n).len() > 0,
        all_digits(digits(n)),
        digits_value(digits(n)) == n,
    decreases n,
{
    if n < 10 {
        lemma_digit(n);
        assert(digits(n).drop_last() == Seq::<char>::empty());
        assert(digits_value(digits(n).drop_last()) == 0);
    } else {
        lemma_digits(n / 10);
        lemma_digit(n % 10);
        assert(digits(n).drop_last() == digits(n / 10));
    }
}

/// A number written in decimal is read back as the same number.
pub proof fn parsing_undoes_printing(n: u64)
    ensures
        parsed_u64(digits(n as nat)) == Some(n),
{
    lemma_digits(n as nat);
    assert(is_digit(digits(n as nat)[0]));
}

/// Different numbers are written differently.
pub proof fn printing_is_injective(m: u64, n: u64)
    requires
        digits(m as nat) == digits(n as nat),
    ensures
        m == n,
{
    parsing_undoes_printing(m);
    parsing_undoes_printing(n);
}

/// The digits of a number hold nothing but digits.
pub proof fn printing_gives_digits(n: u64)
    ensures
        all_digits(digits(n as nat)),
        digits(n as nat).len() > 0,
{
    lemma_digits(n as nat);
}

/// A longer run of digits stands for no smaller a number.
proof fn lemma_value_grows(s: Seq<char>, i: int)
    requires
        0 <= i <= s.len(),
        all_digits(s),
    ensures
        digits_value(s.take(i)) <= digits_value(s),
    decreases s.len() - i,
{
    if i < s.len() {
        lemma_value_grows(s, i + 1);
        assert(s.take(i + 1).drop_last() == s.take(i));
        assert(is_digit(s[i]));
    } else {
        assert(s.take(i) == s);
    }
}

/// The decimal digits of `n`.
pub fn print_u64(n: u64) -> (s: Vec<char>)
    ensures
        s@ == digits(n as nat),
    decreases n,
{
    if n < 10 {
        let mut s: Vec<char> = Vec::new();
        s.push(('0' as u8 + n as u8) as char);
        assert(s@ == digits(n as nat));
        s
    } else {
        let mut s = print_u64(n / 10);
        s.push(('0' as u8 + (n % 10) as u8) as char);
        s
    }
}

/// The 64-bit number written as `s`, or `None` when `s` is not such a number.
pub fn parse_u64(s: &[char]) -> (n: Option<u64>)
    ensures
        n == parsed_u64(s@),
{
    let start: usize = if s.len() > 0 && s[0] == '+' {
        1
    } else {
        0
    };
    let ghost run = s@.skip(start as int);
    proof {
        assert(s@.skip(0) == s@);
    }
    if start == s.len() {
        return None;
    }
    let mut n: u64 = 0;
    let mut i: usize = start;
    while i < s.len()
        invariant
            start <= i <= s@.len(),
            start <= 1,
            start < s@.len(),
            run == s@.skip(start as int),
            parsed_u64(s@) == (if all_digits(run) && digits_value(run) <= u64::MAX {
                Some(digits_value(run) as u64)
            } else {
                None::<u64>
            }),
            forall|j: int| 0 <= j < i - start ==> is_digit(#[trigger] run[j]),
            n == digits_value(run.take(i - start)),
        decreases s@.len() - i,
    {
        let c = s[i];
        assert(c == run[i - start]);
        if c < '0' || c > '9' {
            return None;
        }
        let d: u64 = (c as u8 - '0' as u8) as u64;
        proof {
            assert(run.take(i + 1 - start).drop_last() == run.take(i - start));
            if all_digits(run) {
                lemma_value_grows(run, i + 1 - start);
            }
        }
        if n > (u64::MAX - d) / 10 {
            return None;
        }
        n = n * 10 + d;
        i = i + 1;
    }
    assert(run.take(s@.len() - start) == run);
    Some(n)
}

/// A number is read off digits only, with or without a `+` before them; nothing else is a number.
pub proof fn only_digits_are_numbers(s: Seq<char>)
    ensures
        parsed_u64(s) is Some ==> s.len() > 0 && forall|i: int|
            0 <= i < s.len() ==> (i == 0 && s.len() > 1 && s[i] == '+') || '0' <= #[trigger] s[i] <= '9',
{
    if parsed_u64(s) is Some && s[0] == '+' {
        let run = s.skip(1);
        assert forall|i: int| 0 <= i < s.len() implies (i == 0 && s.len() > 1 && s[i] == '+') || '0'
            <= #[trigger] s[i] <= '9' by {
            if i > 0 {
                assert(is_digit(run[i - 1]));
            }
        }
    } else if parsed_u64(s) is Some {
        assert forall|i: int| 0 <= i < s.len() implies '0' <= #[trigger] s[i] <= '9' by {
            assert(is_digit(s[i]));
        }
    }
}

/// A `+` before digits makes no difference, nor do zeros.
pub proof fn signs_and_zeros_make_no_difference(s: Seq<char>)
    requires
        s.len() > 0,
        all_digits(s),
    ensures
        parsed_u64(seq!['+'] + s) == parsed_u64(s),
        parsed_u64(seq!['0'] + s) == parsed_u64(s),
{
    assert((seq!['+'] + s).skip(1) == s);
    assert(is_digit(s[0]));
    let zero = seq!['0'] + s;
    assert(all_digits(zero)) by {
        assert forall|i: int| 0 <= i < zero.len() implies is_digit(#[trigger] zero[i]) by {
            if i > 0 {
                assert(zero[i] == s[i - 1]);
            }
        }
    }
    lemma_leading_zero(s);
}

proof fn lemma_leading_zero(s: Seq<char>)
    ensures
        digits_value(seq!['0'] + s) == digits_value(s),
    decreases s.len(),
{
    let zero = seq!['0'] + s;
    if s.len() == 0 {
        assert(zero.drop_last() == Seq::<char>::empty());
        assert(digits_value(zero.drop_last()) == 0);
    } else {
        assert(zero.drop_last() == seq!['0'] + s.drop_last());
        lemma_leading_zero(s.drop_last());
    }
}

/// Each further digit makes ten times the number plus the digit, as long as it fits.
pub proof fn digits_count_by_ten(s: Seq<char>, d: char)
    requires
        s.len() > 0,
        all_digits(s),
        '0' <= d <= '9',
    ensures
        match parsed_u64(s) {
            Some(n) => parsed_u64(s.push(d)) == (if 10 * n + (d as int - '0' as int) <= u64::MAX {
                Some((10 * n + (d as int - '0' as int)) as u64)
            } else {
                None
            }),
            None => parsed_u64(s.push(d)) is None,
        },
{
    let t = s.push(d);
    assert(is_digit(s[0]) && t[0] == s[0]);
    assert(t.drop_last() == s);
    assert(all_digits(t)) by {
        assert forall|i: int| 0 <= i < t.len() implies is_digit(#[trigger] t[i]) by {
            if i < s.len() {
                assert(t[i] == s[i]);
            }
        }
    }
}

/// A single digit is read as the number that it stands for.
pub proof fn single_digits_are_numbers(d: char)
    requires
        '0' <= d <= '9',
    ensures
        parsed_u64(seq![d]) == Some((d as int - '0' as int) as u64),
{
    let s = seq![d];
    assert(s.drop_last() == Seq::<char>::empty());
    assert(digits_value(s.drop_last()) == 0);
    assert(all_digits(s));
}

/// Numbers are written without leading zeros.
pub proof fn numbers_have_no_leading_zeros(n: nat)
    ensures
        digits(n).len() > 1 ==> digits(n)[0] != '0',
        n > 0 ==> digits(n)[0] != '0',
    decreases n,
{
    if n >= 10 {
        numbers_have_no_leading_zeros(n / 10);
        lemma_digits(n / 10);
        assert(digits(n)[0] == digits(n / 10)[0]);
    }
}

}
