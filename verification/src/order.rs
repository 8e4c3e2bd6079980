//! The natural order of byte spans, and the comparator that computes it.

use crate::digits::{
    after_digit_run, is_ascii_digit, is_digit, lemma_run_bounds, read_digits, significant_digits,
};
use std::cmp::Ordering;
use vstd::prelude::*;

verus! {

/// How two natural numbers compare.
pub open spec fn nat_order(m: nat, n: nat) -> Ordering {
    if m < n {
        Ordering::Less
    } else if m == n {
        Ordering::Equal
    } else {
        Ordering::Greater
    }
}

/// How two bytes compare by their value.
pub open spec fn byte_order(x: u8, y: u8) -> Ordering {
    if x < y {
        Ordering::Less
    } else if x == y {
        Ordering::Equal
    } else {
        Ordering::Greater
    }
}

/// The same comparison seen from the other side.
pub open spec fn reversed(ord: Ordering) -> Ordering {
    match ord {
        Ordering::Less => Ordering::Greater,
        Ordering::Equal => Ordering::Equal,
        Ordering::Greater => Ordering::Less,
    }
}

/// The lexical order of two byte sequences: the first position at which
/// they differ decides; a proper prefix comes first.
pub open spec fn lexical_order(a: Seq<u8>, b: Seq<u8>) -> Ordering
    decreases a.len(),
{
    if a.len() == 0 || b.len() == 0 {
        nat_order(a.len(), b.len())
    } else if a[0] == b[0] {
        lexical_order(a.skip(1), b.skip(1))
    } else {
        byte_order(a[0], b[0])
    }
}

/// How two digit runs compare once their leading zeros are gone: the one
/// with fewer significant digits is smaller, and runs of the same length
/// compare lexically.
pub open spec fn magnitude_order(a: Seq<u8>, b: Seq<u8>) -> Ordering {
    if a.len() == b.len() {
        lexical_order(a, b)
    } else {
        nat_order(a.len(), b.len())
    }
}

/// The natural order of two byte spans.
///
/// Both spans are read from the left in lock-step. Where both start with a
/// digit, the two digit runs are compared by magnitude, without their
/// leading zeros, and the reading goes on behind both runs if they are
/// equal. Anywhere else one byte of each span is compared by its value. A
/// span that ends first comes first.
pub open spec fn natural_order(a: Seq<u8>, b: Seq<u8>) -> Ordering
    decreases a.len(),
{
    if a.len() == 0 || b.len() == 0 {
        nat_order(a.len(), b.len())
    } else if is_digit(a[0]) && is_digit(b[0]) {
        match magnitude_order(significant_digits(a), significant_digits(b)) {
            Ordering::Equal => {
                proof {
                    lemma_run_bounds(a);
                }
                natural_order(after_digit_run(a), after_digit_run(b))
            },
            decided => decided,
        }
    } else if a[0] == b[0] {
        natural_order(a.skip(1), b.skip(1))
    } else {
        byte_order(a[0], b[0])
    }
}

/// Compares two byte slices lexically.
pub fn cmp_lexical(a: &[u8], b: &[u8]) -> (ord: Ordering)
    ensures
        ord == lexical_order(a@, b@),
{
    let mut rest_a = a;
    let mut rest_b = b;
    while rest_a.len() > 0 && rest_b.len() > 0
        invariant
            lexical_order(rest_a@, rest_b@) == lexical_order(a@, b@),
        decreases rest_a.len(),
    {
        let x = rest_a[0];
        let y = rest_b[0];
        if x < y {
            return Ordering::Less;
        } else if x > y {
            return Ordering::Greater;
        }
        rest_a = &rest_a[1..rest_a.len()];
        rest_b = &rest_b[1..rest_b.len()];
    }
    rest_a.len().cmp(&rest_b.len())
}

/// Takes the digit run off the front of both slices and compares the two
/// runs by magnitude.
pub fn cmp_digits(a: &mut &[u8], b: &mut &[u8]) -> (ord: Ordering)
    ensures
        ord == magnitude_order(significant_digits(old(a)@), significant_digits(old(b)@)),
        final(a)@ == after_digit_run(old(a)@),
        final(b)@ == after_digit_run(old(b)@),
{
    let run_a = read_digits(a);
    let run_b = read_digits(b);
    match run_a.len().cmp(&run_b.len()) {
        Ordering::Equal => cmp_lexical(run_a, run_b),
        ord => ord,
    }
}

/// Compares two byte slices in natural order.
pub fn cmp_ascii(a: &[u8], b: &[u8]) -> (ord: Ordering)
    ensures
        ord == natural_order(a@, b@),
{
    let mut rest_a = a;
    let mut rest_b = b;
    while rest_a.len() > 0 && rest_b.len() > 0
        invariant
            natural_order(rest_a@, rest_b@) == natural_order(a@, b@),
        decreases rest_a.len(),
    {
        let x = rest_a[0];
        let y = rest_b[0];
        let ord = if is_ascii_digit(x) && is_ascii_digit(y) {
            proof {
                lemma_run_bounds(rest_a@);
            }
            cmp_digits(&mut rest_a, &mut rest_b)
        } else {
            rest_a = &rest_a[1..rest_a.len()];
            rest_b = &rest_b[1..rest_b.len()];
            x.cmp(&y)
        };
        match ord {
            Ordering::Equal => {},
            _ => {
                return ord;
            },
        }
    }
    rest_a.len().cmp(&rest_b.len())
}

} // verus!
