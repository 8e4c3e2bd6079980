//! ASCII digit runs: where they end, how many of their leading bytes are
//! zeros, and the number they denote.

use vstd::prelude::*;

verus! {

/// The ASCII digit `0`.
pub const ASCII_ZERO: u8 = 0x30;

/// The ASCII digit `9`.
pub const ASCII_NINE: u8 = 0x39;

/// Whether `b` is one of the ASCII decimal digits `0` to `9`.
pub open spec fn is_digit(b: u8) -> bool {
    ASCII_ZERO <= b <= ASCII_NINE
}

/// Whether every byte of `s` is an ASCII digit.
pub open spec fn all_digits(s: Seq<u8>) -> bool {
    forall|i: int| 0 <= i < s.len() ==> is_digit(#[trigger] s[i])
}

/// Whether no byte of `s` is an ASCII digit.
pub open spec fn no_digits(s: Seq<u8>) -> bool {
    forall|i: int| 0 <= i < s.len() ==> !is_digit(#[trigger] s[i])
}

/// Length of the digit run at the front of `s`: the number of leading bytes
/// that are ASCII digits.
pub open spec fn digit_run_len(s: Seq<u8>) -> nat
    decreases s.len(),
{
    if s.len() > 0 && is_digit(s[0]) {
        1 + digit_run_len(s.skip(1))
    } else {
        0
    }
}

/// Number of leading bytes of `s` that are the digit `0`.
pub open spec fn zero_run_len(s: Seq<u8>) -> nat
    decreases s.len(),
{
    if s.len() > 0 && s[0] == ASCII_ZERO {
        1 + zero_run_len(s.skip(1))
    } else {
        0
    }
}

/// The digit run at the front of `s`.
pub open spec fn digit_run(s: Seq<u8>) -> Seq<u8> {
    s.take(digit_run_len(s) as int)
}

/// The digit run at the front of `s` without its leading zeros. A run made
/// of zeros only has no significant digits.
pub open spec fn significant_digits(s: Seq<u8>) -> Seq<u8> {
    s.subrange(zero_run_len(s) as int, digit_run_len(s) as int)
}

/// What is left of `s` behind the digit run at its front.
pub open spec fn after_digit_run(s: Seq<u8>) -> Seq<u8> {
    s.skip(digit_run_len(s) as int)
}

/// The number that the digit `b` denotes; a byte that is no digit counts as
/// zero.
pub open spec fn digit_value(b: u8) -> nat {
    if is_digit(b) {
        (b - ASCII_ZERO) as nat
    } else {
        0
    }
}

/// The number that the decimal digits of `s` denote; the empty sequence
/// denotes zero.
pub open spec fn decimal_value(s: Seq<u8>) -> nat
    decreases s.len(),
{
    if s.len() == 0 {
        0
    } else {
        10 * decimal_value(s.drop_last()) + digit_value(s.last())
    }
}

/// The digit run at the front of `s` ends inside `s`, and its leading zeros
/// are part of it.
pub proof fn lemma_run_bounds(s: Seq<u8>)
    ensures
        zero_run_len(s) <= digit_run_len(s) <= s.len(),
    decreases s.len(),
{
    if s.len() > 0 && is_digit(s[0]) {
        lemma_run_bounds(s.skip(1));
    }
}

/// The bytes of the digit run are digits, and the byte behind it, if there
/// is one, is not.
pub proof fn lemma_digit_run_maximal(s: Seq<u8>)
    ensures
        forall|i: int| 0 <= i < digit_run_len(s) ==> is_digit(#[trigger] s[i]),
        digit_run_len(s) < s.len() ==> !is_digit(s[digit_run_len(s) as int]),
    decreases s.len(),
{
    lemma_run_bounds(s);
    if s.len() > 0 && is_digit(s[0]) {
        let t = s.skip(1);
        lemma_digit_run_maximal(t);
        lemma_run_bounds(t);
        assert forall|i: int| 0 <= i < digit_run_len(s) implies is_digit(#[trigger] s[i]) by {
            if i > 0 {
                assert(s[i] == t[i - 1]);
            }
        }
        if digit_run_len(s) < s.len() {
            assert(s[digit_run_len(s) as int] == t[digit_run_len(t) as int]);
        }
    }
}

/// The leading zeros are zeros, and the byte behind them, if there is one,
/// is not.
pub proof fn lemma_zero_run_maximal(s: Seq<u8>)
    ensures
        forall|i: int| 0 <= i < zero_run_len(s) ==> #[trigger] s[i] == ASCII_ZERO,
        zero_run_len(s) < s.len() ==> s[zero_run_len(s) as int] != ASCII_ZERO,
    decreases s.len(),
{
    lemma_run_bounds(s);
    if s.len() > 0 && s[0] == ASCII_ZERO {
        let t = s.skip(1);
        lemma_zero_run_maximal(t);
        lemma_run_bounds(t);
        assert forall|i: int| 0 <= i < zero_run_len(s) implies #[trigger] s[i] == ASCII_ZERO by {
            if i > 0 {
                assert(s[i] == t[i - 1]);
            }
        }
        if zero_run_len(s) < s.len() {
            assert(s[zero_run_len(s) as int] == t[zero_run_len(t) as int]);
        }
    }
}

/// A prefix of digits that ends at a non-digit or at the end of `s` is the
/// digit run of `s`.
pub proof fn lemma_digit_run_len_is(s: Seq<u8>, n: int)
    requires
        0 <= n <= s.len(),
        forall|i: int| 0 <= i < n ==> is_digit(#[trigger] s[i]),
        n < s.len() ==> !is_digit(s[n]),
    ensures
        digit_run_len(s) == n,
    decreases s.len(),
{
    if n > 0 {
        let t = s.skip(1);
        assert forall|i: int| 0 <= i < n - 1 implies is_digit(#[trigger] t[i]) by {
            assert(t[i] == s[i + 1]);
        }
        lemma_digit_run_len_is(t, n - 1);
    }
}

/// A prefix of zeros that ends at another byte or at the end of `s` is the
/// run of leading zeros of `s`.
pub proof fn lemma_zero_run_len_is(s: Seq<u8>, n: int)
    requires
        0 <= n <= s.len(),
        forall|i: int| 0 <= i < n ==> #[trigger] s[i] == ASCII_ZERO,
        n < s.len() ==> s[n] != ASCII_ZERO,
    ensures
        zero_run_len(s) == n,
    decreases s.len(),
{
    if n > 0 {
        let t = s.skip(1);
        assert forall|i: int| 0 <= i < n - 1 implies #[trigger] t[i] == ASCII_ZERO by {
            assert(t[i] == s[i + 1]);
        }
        lemma_zero_run_len_is(t, n - 1);
    }
}

/// A leading zero does not change the number that a sequence of digits
/// denotes.
pub proof fn lemma_leading_zero_value(s: Seq<u8>)
    requires
        s.len() > 0,
        s[0] == ASCII_ZERO,
    ensures
        decimal_value(s) == decimal_value(s.skip(1)),
    decreases s.len(),
{
    let t = s.skip(1);
    if s.len() == 1 {
        assert(decimal_value(s.drop_last()) == 0);
        assert(decimal_value(t) == 0);
    } else {
        lemma_leading_zero_value(s.drop_last());
        assert(t.drop_last() =~= s.drop_last().skip(1));
        assert(t.last() == s.last());
        assert(decimal_value(t) == 10 * decimal_value(t.drop_last()) + digit_value(t.last()));
    }
}

/// A sequence of digits denotes the same number with and without its
/// leading zeros.
pub proof fn lemma_leading_zeros_value(s: Seq<u8>)
    ensures
        decimal_value(s) == decimal_value(s.skip(zero_run_len(s) as int)),
    decreases s.len(),
{
    if s.len() > 0 && s[0] == ASCII_ZERO {
        let t = s.skip(1);
        lemma_run_bounds(t);
        lemma_leading_zero_value(s);
        lemma_leading_zeros_value(t);
        assert(t.skip(zero_run_len(t) as int) =~= s.skip(zero_run_len(s) as int));
    } else {
        assert(s.skip(0) =~= s);
    }
}

/// A number written with digits only: its digit run is the whole span, its
/// significant digits are digits that do not start with a zero, and they
/// denote the same number as the span.
pub proof fn lemma_significant_digits_of_number(s: Seq<u8>)
    requires
        all_digits(s),
    ensures
        after_digit_run(s).len() == 0,
        all_digits(significant_digits(s)),
        significant_digits(s).len() > 0 ==> significant_digits(s)[0] != ASCII_ZERO,
        decimal_value(significant_digits(s)) == decimal_value(s),
{
    lemma_digit_run_len_is(s, s.len() as int);
    lemma_run_bounds(s);
    lemma_zero_run_maximal(s);
    lemma_leading_zeros_value(s);
    assert(significant_digits(s) =~= s.skip(zero_run_len(s) as int));
}

/// The digit run at the front of `s` is made of digits, and its significant
/// digits are those of `s`.
pub proof fn lemma_digit_run_is_number(s: Seq<u8>)
    ensures
        all_digits(digit_run(s)),
        significant_digits(digit_run(s)) == significant_digits(s),
{
    let run = digit_run(s);
    lemma_run_bounds(s);
    lemma_digit_run_maximal(s);
    lemma_zero_run_maximal(s);
    lemma_digit_run_len_is(run, run.len() as int);
    let zeros = zero_run_len(s) as int;
    if zeros < run.len() {
        assert(run[zeros] == s[zeros]);
    }
    lemma_zero_run_len_is(run, zeros);
    assert(significant_digits(run) =~= significant_digits(s));
}

/// A sequence of digits that does not start with a zero denotes a larger
/// number than any shorter sequence of digits.
pub proof fn lemma_longer_number_is_larger(x: Seq<u8>, y: Seq<u8>)
    requires
        all_digits(x),
        all_digits(y),
        x.len() < y.len(),
        y[0] != ASCII_ZERO,
    ensures
        decimal_value(x) < decimal_value(y),
    decreases y.len(),
{
    assert(is_digit(y.last()));
    if y.len() == 1 {
        assert(x.len() == 0);
        assert(y.drop_last().len() == 0);
    } else {
        let front_y = y.drop_last();
        assert(front_y[0] == y[0]);
        if x.len() == 0 {
            lemma_longer_number_is_larger(x, front_y);
        } else {
            assert(is_digit(x.last()));
            lemma_longer_number_is_larger(x.drop_last(), front_y);
        }
    }
}

/// Tells whether `b` is an ASCII decimal digit.
pub fn is_ascii_digit(b: u8) -> (r: bool)
    ensures
        r == is_digit(b),
{
    ASCII_ZERO <= b && b <= ASCII_NINE
}

/// Moves `slice` past its leading zeros.
pub fn trim_zeros(slice: &mut &[u8])
    ensures
        final(slice)@ == old(slice)@.skip(zero_run_len(old(slice)@) as int),
{
    let ghost whole = slice@;
    let ghost mut k: int = 0;
    let mut rest: &[u8] = *slice;
    while rest.len() > 0 && rest[0] == ASCII_ZERO
        invariant
            0 <= k <= whole.len(),
            rest@ == whole.skip(k),
            forall|i: int| 0 <= i < k ==> #[trigger] whole[i] == ASCII_ZERO,
        decreases rest.len(),
    {
        rest = &rest[1..rest.len()];
        proof {
            k = k + 1;
        }
    }
    proof {
        if k < whole.len() {
            assert(rest@[0] == whole[k]);
        }
        lemma_zero_run_len_is(whole, k);
    }
    *slice = rest;
}

/// Takes the digit run off the front of `slice` and returns its significant
/// digits: the run without its leading zeros.
pub fn read_digits<'a>(slice: &mut &'a [u8]) -> (digits: &'a [u8])
    ensures
        digits@ == significant_digits(old(slice)@),
        final(slice)@ == after_digit_run(old(slice)@),
{
    let ghost whole = slice@;
    trim_zeros(slice);
    let trimmed: &'a [u8] = *slice;
    let ghost zeros = zero_run_len(whole) as int;
    proof {
        lemma_run_bounds(whole);
        lemma_zero_run_maximal(whole);
    }
    let mut i: usize = 0;
    while i < trimmed.len() && is_ascii_digit(trimmed[i])
        invariant
            0 <= i <= trimmed.len(),
            forall|j: int| 0 <= j < i ==> is_digit(#[trigger] trimmed@[j]),
        decreases trimmed.len() - i,
    {
        i += 1;
    }
    let (digits, rest) = trimmed.split_at(i);
    proof {
        assert forall|j: int| 0 <= j < zeros + i implies is_digit(#[trigger] whole[j]) by {
            if j >= zeros {
                assert(whole[j] == trimmed@[j - zeros]);
            }
        }
        if zeros + i < whole.len() {
            assert(whole[zeros + i] == trimmed@[i as int]);
        }
        lemma_digit_run_len_is(whole, zeros + i);
        assert(digits@ =~= significant_digits(whole));
        assert(rest@ =~= after_digit_run(whole));
    }
    *slice = rest;
    digits
}

} // verus!
