//! Decimal text of the engine's numbers.
//!
//! The numeric width of the language is a configuration choice of this
//! implementation: one explicit 64-bit signed integer, independent of the
//! host's word size. `dec_str` is the display form of a number — the same
//! text the evaluator accepts back as a literal.

use crate::text::push_char;
use vstd::prelude::*;

verus! {

/// Decimal digit character for `d` in `0 ..= 9`.
pub open spec fn digit_char(d: int) -> char {
    ((48 + d) as u8) as char
}

/// Decimal text of a nonnegative integer.
pub open spec fn dec_str_nat(n: int) -> Seq<char>
    recommends
        n >= 0,
    decreases n,
{
    if n < 10 {
        seq![digit_char(n)]
    } else {
        dec_str_nat(n / 10) + seq![digit_char(n % 10)]
    }
}

/// Decimal text of an integer: the display form of a Number value.
pub open spec fn dec_str(n: int) -> Seq<char> {
    if n >= 0 {
        dec_str_nat(n)
    } else {
        seq!['-'] + dec_str_nat(-n)
    }
}

/// Whether `c` is a decimal digit character.
pub open spec fn is_digit_char(c: char) -> bool {
    '0' <= c && c <= '9'
}

/// Every character of `dec_str_nat` is a digit.
pub proof fn lemma_dec_str_nat_digits(n: int)
    requires
        n >= 0,
    ensures
        dec_str_nat(n).len() > 0,
        forall|i: int| 0 <= i < dec_str_nat(n).len() ==> is_digit_char(#[trigger] dec_str_nat(n)[i]),
    decreases n,
{
    if n < 10 {
        assert(dec_str_nat(n) == seq![digit_char(n)]);
        assert(is_digit_char(digit_char(n))) by {
            assert(48 <= 48 + n <= 57);
        }
    } else {
        lemma_dec_str_nat_digits(n / 10);
        assert(is_digit_char(digit_char(n % 10))) by {
            assert(0 <= n % 10 < 10);
        }
    }
}

/// The shape of a number's decimal text: it starts with a digit, or with
/// `-` followed by a digit, and contains no quote, apostrophe, letter,
/// underscore or whitespace anywhere.
pub proof fn lemma_dec_str_form(n: int)
    ensures
        dec_str(n).len() > 0,
        n >= 0 ==> is_digit_char(dec_str(n)[0]),
        n < 0 ==> dec_str(n)[0] == '-' && dec_str(n).len() >= 2 && is_digit_char(dec_str(n)[1]),
        forall|i: int|
            0 <= i < dec_str(n).len() ==> is_digit_char(#[trigger] dec_str(n)[i]) || dec_str(n)[i]
                == '-',
{
    if n >= 0 {
        lemma_dec_str_nat_digits(n);
    } else {
        lemma_dec_str_nat_digits(-n);
        assert(dec_str(n)[0] == '-');
        assert(dec_str(n)[1] == dec_str_nat(-n)[0]);
        assert(forall|i: int| 1 <= i < dec_str(n).len() ==> dec_str(n)[i] == dec_str_nat(-n)[i
            - 1]);
    }
}

/// Digit characters, seen least-significant first, read in reverse.
spec fn rev_digit_chars(ds: Seq<u8>) -> Seq<char> {
    Seq::new(ds.len(), |i: int| digit_char(ds[ds.len() - 1 - i] as int))
}

/// Renders `n` in decimal: the display form of a Number value.
pub fn int_to_decimal(n: i64) -> (r: String)
    ensures
        r@ == dec_str(n as int),
{
    let neg = n < 0;
    let mut m: u64 = if n >= 0 {
        n as u64
    } else {
        ((-(n + 1)) as u64) + 1
    };
    let ghost mag: int = m as int;
    proof {
        if n >= 0 {
            assert(mag == n as int);
        } else {
            assert(mag == -(n as int));
        }
    }
    let mut digits: Vec<u8> = Vec::new();
    while m >= 10
        invariant
            dec_str_nat(mag) =~= dec_str_nat(m as int) + rev_digit_chars(digits@),
            forall|i: int| 0 <= i < digits@.len() ==> digits@[i] < 10,
        decreases m,
    {
        let d: u8 = (m % 10) as u8;
        let ghost pre = digits@;
        digits.push(d);
        m = m / 10;
        proof {
            assert(rev_digit_chars(pre.push(d)) =~= seq![digit_char(d as int)]
                + rev_digit_chars(pre));
        }
    }
    let d: u8 = m as u8;
    let ghost pre = digits@;
    digits.push(d);
    proof {
        assert(rev_digit_chars(pre.push(d)) =~= seq![digit_char(d as int)] + rev_digit_chars(pre));
        assert(dec_str_nat(mag) =~= rev_digit_chars(digits@));
    }
    let mut r = String::new();
    if neg {
        push_char(&mut r, '-');
    }
    let ghost sign: Seq<char> = if neg {
        seq!['-']
    } else {
        Seq::empty()
    };
    proof {
        assert(r@ =~= sign);
    }
    let total = digits.len();
    let mut k: usize = 0;
    while k < total
        invariant
            k <= total,
            total == digits@.len(),
            forall|i: int| 0 <= i < digits@.len() ==> digits@[i] < 10,
            r@ =~= sign + rev_digit_chars(digits@).take(k as int),
        decreases total - k,
    {
        let d = digits[total - 1 - k];
        let c: char = ((48 + d) as u8) as char;
        push_char(&mut r, c);
        k += 1;
        proof {
            assert(c == digit_char(d as int));
            assert(r@ =~= sign + rev_digit_chars(digits@).take(k as int));
        }
    }
    proof {
        assert(rev_digit_chars(digits@).take(total as int) =~= rev_digit_chars(digits@));
        assert(r@ =~= sign + dec_str_nat(mag));
        if n >= 0 {
            assert(r@ =~= dec_str(n as int));
        } else {
            assert(r@ =~= dec_str(n as int));
        }
    }
    r
}

} // verus!
