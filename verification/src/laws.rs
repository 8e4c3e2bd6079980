//! What holds of the natural order: it is a total preorder, it agrees with
//! the numeric order on decimal numbers and with the lexical order on spans
//! without digits.

use crate::digits::{
    after_digit_run, all_digits, decimal_value, digit_run, is_digit, lemma_digit_run_is_number,
    lemma_longer_number_is_larger, lemma_run_bounds, lemma_significant_digits_of_number,
    no_digits, significant_digits,
};
use crate::order::{
    byte_order, lexical_order, magnitude_order, nat_order, natural_order, reversed,
};
use std::cmp::Ordering;
use vstd::prelude::*;

verus! {

/// Two byte sequences are lexically equal exactly when they are the same
/// sequence.
pub proof fn lemma_lexical_equal(a: Seq<u8>, b: Seq<u8>)
    ensures
        lexical_order(a, b) == Ordering::Equal <==> a == b,
    decreases a.len(),
{
    if a.len() == 0 || b.len() == 0 {
        if a.len() == 0 && b.len() == 0 {
            assert(a =~= b);
        }
    } else if a[0] == b[0] {
        lemma_lexical_equal(a.skip(1), b.skip(1));
        if a.skip(1) == b.skip(1) {
            assert forall|i: int| 0 <= i < a.len() implies a[i] == b[i] by {
                if i > 0 {
                    assert(a[i] == a.skip(1)[i - 1]);
                    assert(b[i] == b.skip(1)[i - 1]);
                }
            }
            assert(a.len() == a.skip(1).len() + 1);
            assert(b.len() == b.skip(1).len() + 1);
            assert(a =~= b);
        }
    }
}

/// Swapping the two sides of a lexical comparison reverses its result.
pub proof fn lemma_lexical_reversed(a: Seq<u8>, b: Seq<u8>)
    ensures
        lexical_order(b, a) == reversed(lexical_order(a, b)),
    decreases a.len(),
{
    if a.len() > 0 && b.len() > 0 && a[0] == b[0] {
        lemma_lexical_reversed(a.skip(1), b.skip(1));
    }
}

/// The lexical order is transitive, and strict as soon as one of the two
/// steps is.
pub proof fn lemma_lexical_transitive(a: Seq<u8>, b: Seq<u8>, c: Seq<u8>)
    requires
        lexical_order(a, b) != Ordering::Greater,
        lexical_order(b, c) != Ordering::Greater,
    ensures
        lexical_order(a, c) != Ordering::Greater,
        lexical_order(a, c) == Ordering::Equal <==> lexical_order(a, b) == Ordering::Equal
            && lexical_order(b, c) == Ordering::Equal,
    decreases a.len(),
{
    if a.len() > 0 && b.len() > 0 && c.len() > 0 && a[0] == b[0] && b[0] == c[0] {
        lemma_lexical_transitive(a.skip(1), b.skip(1), c.skip(1));
    }
}

/// Two runs of significant digits have the same magnitude exactly when they
/// are the same sequence.
pub proof fn lemma_magnitude_equal(a: Seq<u8>, b: Seq<u8>)
    ensures
        magnitude_order(a, b) == Ordering::Equal <==> a == b,
{
    lemma_lexical_equal(a, b);
}

/// Swapping the two sides of a magnitude comparison reverses its result.
pub proof fn lemma_magnitude_reversed(a: Seq<u8>, b: Seq<u8>)
    ensures
        magnitude_order(b, a) == reversed(magnitude_order(a, b)),
{
    lemma_lexical_reversed(a, b);
}

/// The magnitude order is transitive, and strict as soon as one of the two
/// steps is.
pub proof fn lemma_magnitude_transitive(a: Seq<u8>, b: Seq<u8>, c: Seq<u8>)
    requires
        magnitude_order(a, b) != Ordering::Greater,
        magnitude_order(b, c) != Ordering::Greater,
    ensures
        magnitude_order(a, c) != Ordering::Greater,
        magnitude_order(a, c) == Ordering::Equal <==> magnitude_order(a, b) == Ordering::Equal
            && magnitude_order(b, c) == Ordering::Equal,
{
    if a.len() == b.len() && b.len() == c.len() {
        lemma_lexical_transitive(a, b, c);
    }
}

/// Every byte span is equal to itself in natural order.
pub proof fn lemma_natural_order_reflexive(a: Seq<u8>)
    ensures
        natural_order(a, a) == Ordering::Equal,
    decreases a.len(),
{
    if a.len() > 0 {
        if is_digit(a[0]) {
            lemma_run_bounds(a);
            lemma_magnitude_equal(significant_digits(a), significant_digits(a));
            lemma_natural_order_reflexive(after_digit_run(a));
        } else {
            lemma_natural_order_reflexive(a.skip(1));
        }
    }
}

/// Swapping the two sides of a natural comparison reverses its result.
pub proof fn lemma_natural_order_reversed(a: Seq<u8>, b: Seq<u8>)
    ensures
        natural_order(b, a) == reversed(natural_order(a, b)),
    decreases a.len(),
{
    if a.len() > 0 && b.len() > 0 {
        if is_digit(a[0]) && is_digit(b[0]) {
            lemma_run_bounds(a);
            lemma_magnitude_reversed(significant_digits(a), significant_digits(b));
            lemma_natural_order_reversed(after_digit_run(a), after_digit_run(b));
        } else if a[0] == b[0] {
            lemma_natural_order_reversed(a.skip(1), b.skip(1));
        }
    }
}

/// Of `a` before `b`, `a` equal to `b` and `b` before `a` exactly one holds,
/// and `a` is equal to `b` exactly when `b` is equal to `a`.
pub proof fn lemma_natural_order_total(a: Seq<u8>, b: Seq<u8>)
    ensures
        natural_order(a, b) == Ordering::Less || natural_order(a, b) == Ordering::Equal
            || natural_order(b, a) == Ordering::Less,
        !(natural_order(a, b) == Ordering::Less && natural_order(a, b) == Ordering::Equal),
        !(natural_order(a, b) == Ordering::Less && natural_order(b, a) == Ordering::Less),
        !(natural_order(a, b) == Ordering::Equal && natural_order(b, a) == Ordering::Less),
        natural_order(a, b) == Ordering::Equal <==> natural_order(b, a) == Ordering::Equal,
{
    lemma_natural_order_reversed(a, b);
}

/// The natural order is transitive: where `a` is not behind `b` and `b` is
/// not behind `c`, `a` is not behind `c`; and `a` is equal to `c` only where
/// both steps are equalities.
pub proof fn lemma_natural_order_transitive(a: Seq<u8>, b: Seq<u8>, c: Seq<u8>)
    requires
        natural_order(a, b) != Ordering::Greater,
        natural_order(b, c) != Ordering::Greater,
    ensures
        natural_order(a, c) != Ordering::Greater,
        natural_order(a, c) == Ordering::Equal <==> natural_order(a, b) == Ordering::Equal
            && natural_order(b, c) == Ordering::Equal,
    decreases a.len(),
{
    if a.len() > 0 && b.len() > 0 && c.len() > 0 {
        if is_digit(a[0]) && is_digit(b[0]) && is_digit(c[0]) {
            let run_a = significant_digits(a);
            let run_b = significant_digits(b);
            let run_c = significant_digits(c);
            lemma_run_bounds(a);
            lemma_magnitude_transitive(run_a, run_b, run_c);
            if magnitude_order(run_a, run_b) == Ordering::Equal && magnitude_order(run_b, run_c)
                == Ordering::Equal {
                lemma_natural_order_transitive(
                    after_digit_run(a),
                    after_digit_run(b),
                    after_digit_run(c),
                );
            }
        } else if !is_digit(a[0]) && a[0] == b[0] && b[0] == c[0] {
            lemma_natural_order_transitive(a.skip(1), b.skip(1), c.skip(1));
        }
    }
}

/// On spans without digits the natural order is the lexical order.
pub proof fn lemma_natural_order_without_digits(a: Seq<u8>, b: Seq<u8>)
    requires
        no_digits(a),
        no_digits(b),
    ensures
        natural_order(a, b) == lexical_order(a, b),
    decreases a.len(),
{
    if a.len() > 0 && b.len() > 0 {
        assert(!is_digit(a[0]));
        if a[0] == b[0] {
            let rest_a = a.skip(1);
            let rest_b = b.skip(1);
            assert forall|i: int| 0 <= i < rest_a.len() implies !is_digit(#[trigger] rest_a[i]) by {
                assert(rest_a[i] == a[i + 1]);
            }
            assert forall|i: int| 0 <= i < rest_b.len() implies !is_digit(#[trigger] rest_b[i]) by {
                assert(rest_b[i] == b[i + 1]);
            }
            lemma_natural_order_without_digits(rest_a, rest_b);
        }
    }
}

/// On sequences of one length the lexical order reads the last bytes only
/// where everything before them is equal.
pub proof fn lemma_lexical_by_last(x: Seq<u8>, y: Seq<u8>)
    requires
        x.len() == y.len(),
        x.len() > 0,
    ensures
        lexical_order(x, y) == match lexical_order(x.drop_last(), y.drop_last()) {
            Ordering::Equal => byte_order(x.last(), y.last()),
            decided => decided,
        },
    decreases x.len(),
{
    if x.len() == 1 {
        assert(x.skip(1).len() == 0);
    } else {
        assert(x.drop_last()[0] == x[0]);
        assert(y.drop_last()[0] == y[0]);
        if x[0] == y[0] {
            lemma_lexical_by_last(x.skip(1), y.skip(1));
            assert(x.skip(1).drop_last() =~= x.drop_last().skip(1));
            assert(y.skip(1).drop_last() =~= y.drop_last().skip(1));
        }
    }
}

/// Two sequences of digits of one length compare lexically as the numbers
/// that they denote.
pub proof fn lemma_lexical_order_of_numbers(x: Seq<u8>, y: Seq<u8>)
    requires
        all_digits(x),
        all_digits(y),
        x.len() == y.len(),
    ensures
        lexical_order(x, y) == nat_order(decimal_value(x), decimal_value(y)),
    decreases x.len(),
{
    if x.len() > 0 {
        lemma_lexical_by_last(x, y);
        lemma_lexical_order_of_numbers(x.drop_last(), y.drop_last());
        assert(is_digit(x.last()));
        assert(is_digit(y.last()));
    }
}

/// Two runs of significant digits compare by magnitude as the numbers that
/// they denote.
pub proof fn lemma_magnitude_order_of_numbers(x: Seq<u8>, y: Seq<u8>)
    requires
        all_digits(x),
        all_digits(y),
        x.len() > 0 ==> x[0] != crate::digits::ASCII_ZERO,
        y.len() > 0 ==> y[0] != crate::digits::ASCII_ZERO,
    ensures
        magnitude_order(x, y) == nat_order(decimal_value(x), decimal_value(y)),
{
    if x.len() == y.len() {
        lemma_lexical_order_of_numbers(x, y);
    } else if x.len() < y.len() {
        lemma_longer_number_is_larger(x, y);
    } else {
        lemma_longer_number_is_larger(y, x);
    }
}

/// The digit runs at the front of two spans compare by magnitude as the
/// numbers that they denote, whatever their leading zeros.
pub proof fn lemma_digit_runs_compare_as_numbers(a: Seq<u8>, b: Seq<u8>)
    ensures
        magnitude_order(significant_digits(a), significant_digits(b)) == nat_order(
            decimal_value(digit_run(a)),
            decimal_value(digit_run(b)),
        ),
{
    lemma_digit_run_is_number(a);
    lemma_digit_run_is_number(b);
    lemma_significant_digits_of_number(digit_run(a));
    lemma_significant_digits_of_number(digit_run(b));
    lemma_magnitude_order_of_numbers(significant_digits(a), significant_digits(b));
}

/// Two decimal numbers, written with any number of leading zeros, compare
/// in natural order as the numbers that they denote.
pub proof fn lemma_natural_order_of_numbers(a: Seq<u8>, b: Seq<u8>)
    requires
        all_digits(a),
        all_digits(b),
        a.len() > 0,
        b.len() > 0,
    ensures
        natural_order(a, b) == nat_order(decimal_value(a), decimal_value(b)),
{
    lemma_significant_digits_of_number(a);
    lemma_significant_digits_of_number(b);
    lemma_magnitude_order_of_numbers(significant_digits(a), significant_digits(b));
    assert(is_digit(a[0]));
    assert(is_digit(b[0]));
    assert(natural_order(after_digit_run(a), after_digit_run(b)) == Ordering::Equal);
}

} // verus!
