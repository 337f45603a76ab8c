//! Decimal rendering of line and column numbers, and the digit-count measure
//! that sizes the line-number gutter.

use vstd::prelude::*;
use vstd::arithmetic::div_mod::{
    lemma_div_is_ordered, lemma_div_decreases, lemma_div_nonincreasing,
};
use crate::text::push_char;

verus! {

/// The decimal digit character for a value in `0 ..= 9`.
pub open spec fn dec_digit(d: int) -> char {
    if d == 0 {
        '0'
    } else if d == 1 {
        '1'
    } else if d == 2 {
        '2'
    } else if d == 3 {
        '3'
    } else if d == 4 {
        '4'
    } else if d == 5 {
        '5'
    } else if d == 6 {
        '6'
    } else if d == 7 {
        '7'
    } else if d == 8 {
        '8'
    } else {
        '9'
    }
}

/// The decimal notation of a non-negative number, most significant digit
/// first.
pub open spec fn dec_chars(n: int) -> Seq<char>
    decreases n,
{
    if n < 10 {
        seq![dec_digit(n)]
    } else {
        dec_chars(n / 10).push(dec_digit(n % 10))
    }
}

/// The number of decimal digits of `n`, with zero digits for zero or less:
/// the width a right-aligned gutter needs for line number `n`.
pub open spec fn spec_log10(n: int) -> int
    decreases n,
{
    if n <= 0 {
        0
    } else if n < 10 {
        1
    } else {
        1 + spec_log10(n / 10)
    }
}

/// The digit count is never negative.
pub proof fn lemma_log10_nonneg(n: int)
    ensures
        spec_log10(n) >= 0,
    decreases n,
{
    if n >= 10 {
        lemma_div_is_ordered(0, n, 10);
        lemma_div_decreases(n, 10);
        lemma_log10_nonneg(n / 10);
    }
}

/// A positive number has at least one digit.
pub proof fn lemma_log10_positive(n: int)
    requires
        n >= 1,
    ensures
        spec_log10(n) >= 1,
{
    if n >= 10 {
        lemma_div_is_ordered(0, n, 10);
        lemma_log10_nonneg(n / 10);
    }
}

/// A number has no more digits than its own value.
pub proof fn lemma_log10_le(n: int)
    requires
        n >= 0,
    ensures
        spec_log10(n) <= n,
    decreases n,
{
    if n >= 10 {
        lemma_div_decreases(n, 10);
        lemma_div_is_ordered(0, n, 10);
        lemma_log10_le(n / 10);
    }
}

/// A positive number's decimal notation has exactly `spec_log10(n)` digits.
pub proof fn lemma_dec_chars_len(n: int)
    requires
        n >= 1,
    ensures
        dec_chars(n).len() == spec_log10(n),
    decreases n,
{
    if n >= 10 {
        assert(n / 10 >= 1) by {
            lemma_div_is_ordered(10, n, 10);
        }
        lemma_div_decreases(n, 10);
        lemma_dec_chars_len(n / 10);
    }
}

/// The decimal digit count is monotone: a larger line number never needs a
/// narrower gutter.
pub proof fn lemma_log10_mono(m: int, n: int)
    requires
        m <= n,
    ensures
        spec_log10(m) <= spec_log10(n),
    decreases n,
{
    if m <= 0 {
        lemma_log10_nonneg(n);
    } else if n >= 10 {
        if m >= 10 {
            lemma_div_is_ordered(m, n, 10);
            lemma_div_is_ordered(0, m, 10);
            lemma_div_decreases(n, 10);
            lemma_log10_mono(m / 10, n / 10);
        } else {
            lemma_log10_positive(n);
        }
    }
}

/// The number of decimal digits of `n`, and zero for zero: the gutter width
/// contributed by line number `n`.
pub fn log10usize(mut n: usize) -> (r: usize)
    ensures
        r as int == spec_log10(n as int),
{
    let ghost n0 = n as int;
    let mut sum: usize = 0;
    while n > 0
        invariant
            0 <= n as int <= n0 <= usize::MAX,
            sum as int + spec_log10(n as int) == spec_log10(n0),
        decreases n,
    {
        proof {
            lemma_log10_positive(n as int);
            lemma_log10_le(n0);
            lemma_div_is_ordered(0, n as int, 10);
            lemma_div_nonincreasing(n as int, 10);
            assert(sum as int <= n0 - 1);
        }
        n = n / 10;
        sum = sum + 1;
    }
    sum
}

/// Appends the decimal notation of `n` to `out`.
pub fn push_usize(out: &mut String, n: usize)
    ensures
        final(out)@ == old(out)@ + dec_chars(n as int),
    decreases n,
{
    if n >= 10 {
        proof {
            lemma_div_decreases(n as int, 10);
            lemma_div_is_ordered(0, n as int, 10);
        }
        push_usize(out, n / 10);
    }
    let d = n % 10;
    let c = if d == 0 {
        '0'
    } else if d == 1 {
        '1'
    } else if d == 2 {
        '2'
    } else if d == 3 {
        '3'
    } else if d == 4 {
        '4'
    } else if d == 5 {
        '5'
    } else if d == 6 {
        '6'
    } else if d == 7 {
        '7'
    } else if d == 8 {
        '8'
    } else {
        '9'
    };
    push_char(out, c);
    proof {
        if n < 10 {
            assert(out@ =~= old(out)@ + dec_chars(n as int));
        } else {
            assert(dec_chars(n as int) == dec_chars(n as int / 10).push(dec_digit(n as int % 10)));
            assert(out@ =~= old(out)@ + dec_chars(n as int));
        }
    }
}

} // verus!
