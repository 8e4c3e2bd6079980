//! What it means for a sequence to be sorted in natural order, and to be a
//! sort of another sequence. Each element is ordered by a byte span that a
//! key function assigns to it.

use crate::laws::{
    lemma_natural_order_reflexive, lemma_natural_order_reversed, lemma_natural_order_transitive,
};
use crate::order::natural_order;
use std::cmp::Ordering;
use vstd::prelude::*;

verus! {

/// Whether `s` is in ascending natural order of the spans that `key` gives
/// to its elements.
pub open spec fn sorted_by_key<A>(s: Seq<A>, key: spec_fn(A) -> Seq<u8>) -> bool {
    forall|i: int, j: int|
        #![trigger s[i], s[j]]
        0 <= i <= j < s.len() ==> natural_order(key(s[i]), key(s[j])) != Ordering::Greater
}

/// The elements of `s` whose span is equal to `span` in natural order, in
/// the order in which they stand in `s`.
pub open spec fn tied<A>(s: Seq<A>, key: spec_fn(A) -> Seq<u8>, span: Seq<u8>) -> Seq<A> {
    s.filter(|x: A| natural_order(key(x), span) == Ordering::Equal)
}

/// Whether elements that are equal in natural order stand in `after` in the
/// order in which they stood in `before`.
pub open spec fn keeps_ties<A>(after: Seq<A>, before: Seq<A>, key: spec_fn(A) -> Seq<u8>) -> bool {
    forall|span: Seq<u8>| #[trigger] tied(after, key, span) == tied(before, key, span)
}

/// Whether elements of `s` that are equal in natural order are the same
/// value.
pub open spec fn ties_are_identical<A>(s: Seq<A>, key: spec_fn(A) -> Seq<u8>) -> bool {
    forall|i: int, j: int|
        #![trigger s[i], s[j]]
        0 <= i < s.len() && 0 <= j < s.len() && natural_order(key(s[i]), key(s[j]))
            == Ordering::Equal ==> s[i] == s[j]
}

/// Whether `after` holds the elements of `before`, each as often as
/// `before` does, in ascending natural order.
pub open spec fn is_sort_of<A>(after: Seq<A>, before: Seq<A>, key: spec_fn(A) -> Seq<u8>) -> bool {
    &&& after.to_multiset() == before.to_multiset()
    &&& sorted_by_key(after, key)
}

/// Whether `after` is the stable sort of `before`: a sort that leaves
/// elements that are equal in natural order in the order in which they
/// stood.
pub open spec fn is_stable_sort_of<A>(
    after: Seq<A>,
    before: Seq<A>,
    key: spec_fn(A) -> Seq<u8>,
) -> bool {
    &&& is_sort_of(after, before, key)
    &&& keeps_ties(after, before, key)
}

/// Two sequences of the same elements have the same length.
pub proof fn lemma_same_length<A>(x: Seq<A>, y: Seq<A>)
    requires
        x.to_multiset() == y.to_multiset(),
    ensures
        x.len() == y.len(),
{
    vstd::seq_lib::to_multiset_len(x);
    vstd::seq_lib::to_multiset_len(y);
}

/// A sorted sequence stays sorted without its last element.
pub proof fn lemma_sorted_drop_last<A>(s: Seq<A>, key: spec_fn(A) -> Seq<u8>)
    requires
        sorted_by_key(s, key),
        s.len() > 0,
    ensures
        sorted_by_key(s.drop_last(), key),
{
    let front = s.drop_last();
    assert forall|i: int, j: int| 0 <= i <= j < front.len() implies natural_order(
        key(front[i]),
        key(front[j]),
    ) != Ordering::Greater by {
        assert(front[i] == s[i]);
        assert(front[j] == s[j]);
    }
}

/// The elements tied with `span`, read from the last element of `s`
/// backwards: the last element is the last of them if it is tied with
/// `span`, and no part of them if it is not.
pub proof fn lemma_tied_by_last<A>(s: Seq<A>, key: spec_fn(A) -> Seq<u8>, span: Seq<u8>)
    requires
        s.len() > 0,
    ensures
        tied(s, key, span) == if natural_order(key(s.last()), span) == Ordering::Equal {
            tied(s.drop_last(), key, span).push(s.last())
        } else {
            tied(s.drop_last(), key, span)
        },
{
    reveal(Seq::filter);
}

/// Every element of a sequence is among those tied with its own span.
pub proof fn lemma_tied_with_itself<A>(s: Seq<A>, key: spec_fn(A) -> Seq<u8>, i: int)
    requires
        0 <= i < s.len(),
    ensures
        tied(s, key, key(s[i])).contains(s[i]),
{
    lemma_natural_order_reflexive(key(s[i]));
    let pred = |x: A| natural_order(key(x), key(s[i])) == Ordering::Equal;
    assert(pred(s[i]));
    s.lemma_filter_contains(pred, i);
}

/// An element tied with `span` is an element of `s` whose span is equal to
/// `span`.
pub proof fn lemma_tied_is_member<A>(s: Seq<A>, key: spec_fn(A) -> Seq<u8>, span: Seq<u8>, x: A)
    requires
        tied(s, key, span).contains(x),
    ensures
        s.contains(x),
        natural_order(key(x), span) == Ordering::Equal,
{
    let pred = |y: A| natural_order(key(y), span) == Ordering::Equal;
    let chosen = s.filter(pred);
    let i = choose|i: int| 0 <= i < chosen.len() && chosen[i] == x;
    s.lemma_filter_pred(pred, i);
    s.lemma_filter_contains_rev(pred, x);
}

/// Two sorted sequences in which the same elements are tied, in the same
/// order, have last elements that are equal in natural order.
proof fn lemma_last_elements_tied<A>(x: Seq<A>, y: Seq<A>, key: spec_fn(A) -> Seq<u8>)
    requires
        sorted_by_key(x, key),
        sorted_by_key(y, key),
        keeps_ties(x, y, key),
        x.len() > 0,
        y.len() > 0,
    ensures
        natural_order(key(x.last()), key(y.last())) == Ordering::Equal,
{
    let a = x.last();
    let b = y.last();
    // `b` is tied with some element of `x`, which is not behind `a`.
    lemma_tied_with_itself(y, key, y.len() - 1);
    assert(tied(x, key, key(b)) == tied(y, key, key(b)));
    lemma_tied_is_member(x, key, key(b), b);
    let i = choose|i: int| 0 <= i < x.len() && x[i] == b;
    assert(natural_order(key(x[i]), key(x[x.len() - 1])) != Ordering::Greater);
    // `a` is tied with some element of `y`, which is not behind `b`.
    lemma_tied_with_itself(x, key, x.len() - 1);
    assert(tied(x, key, key(a)) == tied(y, key, key(a)));
    lemma_tied_is_member(y, key, key(a), a);
    let j = choose|j: int| 0 <= j < y.len() && y[j] == a;
    assert(natural_order(key(y[j]), key(y[y.len() - 1])) != Ordering::Greater);
    lemma_natural_order_reversed(key(a), key(b));
}

/// Two sorted sequences in which the same elements are tied, in the same
/// order, are the same sequence.
pub proof fn lemma_sorted_with_same_ties<A>(x: Seq<A>, y: Seq<A>, key: spec_fn(A) -> Seq<u8>)
    requires
        sorted_by_key(x, key),
        sorted_by_key(y, key),
        keeps_ties(x, y, key),
    ensures
        x == y,
    decreases x.len(),
{
    if x.len() == 0 {
        if y.len() > 0 {
            lemma_tied_with_itself(y, key, 0);
            assert(tied(x, key, key(y[0])) == tied(y, key, key(y[0])));
            lemma_tied_is_member(x, key, key(y[0]), y[0]);
        }
        assert(x =~= y);
    } else {
        if y.len() == 0 {
            lemma_tied_with_itself(x, key, 0);
            assert(tied(x, key, key(x[0])) == tied(y, key, key(x[0])));
            lemma_tied_is_member(y, key, key(x[0]), x[0]);
        }
        let a = x.last();
        let b = y.last();
        let front_x = x.drop_last();
        let front_y = y.drop_last();
        lemma_last_elements_tied(x, y, key);
        lemma_natural_order_reflexive(key(a));
        lemma_natural_order_reversed(key(a), key(b));
        // Both last elements are the last of those tied with the span of `a`.
        lemma_tied_by_last(x, key, key(a));
        lemma_tied_by_last(y, key, key(a));
        assert(tied(x, key, key(a)) == tied(y, key, key(a)));
        assert(tied(front_x, key, key(a)).push(a).last() == a);
        assert(tied(front_y, key, key(a)).push(b).last() == b);
        assert(a == b);
        assert forall|span: Seq<u8>| #[trigger]
            tied(front_x, key, span) == tied(front_y, key, span) by {
            lemma_tied_by_last(x, key, span);
            lemma_tied_by_last(y, key, span);
            assert(tied(x, key, span) == tied(y, key, span));
            if natural_order(key(a), span) == Ordering::Equal {
                assert(tied(front_x, key, span).push(a).drop_last() =~= tied(front_x, key, span));
                assert(tied(front_y, key, span).push(a).drop_last() =~= tied(front_y, key, span));
            }
        }
        lemma_sorted_drop_last(x, key);
        lemma_sorted_drop_last(y, key);
        lemma_sorted_with_same_ties(front_x, front_y, key);
        assert(x =~= front_x.push(a));
        assert(y =~= front_y.push(b));
    }
}

/// The stable sort of a sequence is unique: two stable sorts of one
/// sequence are the same sequence.
pub proof fn lemma_stable_sort_is_unique<A>(
    first: Seq<A>,
    second: Seq<A>,
    before: Seq<A>,
    key: spec_fn(A) -> Seq<u8>,
)
    requires
        is_stable_sort_of(first, before, key),
        is_stable_sort_of(second, before, key),
    ensures
        first == second,
{
    assert forall|span: Seq<u8>| #[trigger]
        tied(first, key, span) == tied(second, key, span) by {
        assert(tied(first, key, span) == tied(before, key, span));
        assert(tied(second, key, span) == tied(before, key, span));
    }
    lemma_sorted_with_same_ties(first, second, key);
}

/// A stable sort leaves a sequence that is sorted already as it is.
pub proof fn lemma_stable_sort_of_sorted<A>(
    after: Seq<A>,
    before: Seq<A>,
    key: spec_fn(A) -> Seq<u8>,
)
    requires
        sorted_by_key(before, key),
        is_stable_sort_of(after, before, key),
    ensures
        after == before,
{
    lemma_sorted_with_same_ties(after, before, key);
}

/// Stable sorts can be repeated: a second stable sort changes nothing, and
/// elements that are equal in natural order still stand in the order in
/// which they stood before the first.
pub proof fn lemma_stable_sort_repeated<A>(
    second: Seq<A>,
    first: Seq<A>,
    before: Seq<A>,
    key: spec_fn(A) -> Seq<u8>,
)
    requires
        is_stable_sort_of(first, before, key),
        is_stable_sort_of(second, first, key),
    ensures
        second == first,
        keeps_ties(second, before, key),
{
    lemma_stable_sort_of_sorted(second, first, key);
}

/// Two sorted sequences of the same elements hold, at each place, elements
/// that are equal in natural order.
pub proof fn lemma_sorted_with_same_elements_tied<A>(
    x: Seq<A>,
    y: Seq<A>,
    key: spec_fn(A) -> Seq<u8>,
)
    requires
        sorted_by_key(x, key),
        sorted_by_key(y, key),
        x.to_multiset() == y.to_multiset(),
    ensures
        x.len() == y.len(),
        forall|i: int|
            0 <= i < x.len() ==> natural_order(key(#[trigger] x[i]), key(y[i])) == Ordering::Equal,
    decreases x.len(),
{
    broadcast use vstd::seq_lib::group_to_multiset_ensures;

    vstd::seq_lib::to_multiset_len(x);
    vstd::seq_lib::to_multiset_len(y);
    if x.len() > 0 {
        let last = x.len() - 1;
        let a = x[last];
        let b = y[last];
        let front_x = x.drop_last();
        let front_y = y.drop_last();
        // Each last element occurs in the other sequence, not behind its last.
        assert(y.contains(b));
        assert(x.to_multiset().count(b) > 0);
        assert(x.contains(b));
        let i = choose|i: int| 0 <= i < x.len() && x[i] == b;
        assert(natural_order(key(x[i]), key(x[last])) != Ordering::Greater);
        assert(x.contains(a));
        assert(y.to_multiset().count(a) > 0);
        assert(y.contains(a));
        let j = choose|j: int| 0 <= j < y.len() && y[j] == a;
        assert(natural_order(key(y[j]), key(y[last])) != Ordering::Greater);
        lemma_natural_order_reversed(key(a), key(b));
        assert(natural_order(key(a), key(b)) == Ordering::Equal);
        assert(natural_order(key(b), key(a)) == Ordering::Equal);
        assert(front_x =~= x.remove(last));
        assert(front_y =~= y.remove(last));
        lemma_sorted_drop_last(x, key);
        if a == b {
            lemma_sorted_drop_last(y, key);
            lemma_sorted_with_same_elements_tied(front_x, front_y, key);
            assert forall|k: int| 0 <= k < x.len() implies natural_order(
                key(#[trigger] x[k]),
                key(y[k]),
            ) == Ordering::Equal by {
                if k < last {
                    assert(front_x[k] == x[k]);
                    assert(front_y[k] == y[k]);
                }
            }
        } else {
            // Put `b` where `a` stands in `y`, and leave out the last `b`:
            // what is left is sorted and holds the elements of `x` but `a`.
            let other = front_y.update(j, b);
            vstd::seq_lib::to_multiset_update(front_y, j, b);
            assert(front_y[j] == a);
            assert(other.to_multiset() =~= front_x.to_multiset());
            lemma_natural_order_reflexive(key(b));
            assert forall|p: int, q: int| 0 <= p <= q < other.len() implies natural_order(
                key(other[p]),
                key(other[q]),
            ) != Ordering::Greater by {
                assert(natural_order(key(y[p]), key(y[q])) != Ordering::Greater);
                if p == j && q != j {
                    assert(natural_order(key(y[j]), key(y[q])) != Ordering::Greater);
                    lemma_natural_order_transitive(key(b), key(a), key(y[q]));
                } else if q == j && p != j {
                    assert(natural_order(key(y[p]), key(y[j])) != Ordering::Greater);
                    lemma_natural_order_transitive(key(y[p]), key(a), key(b));
                }
            }
            lemma_sorted_with_same_elements_tied(front_x, other, key);
            assert forall|k: int| 0 <= k < x.len() implies natural_order(
                key(#[trigger] x[k]),
                key(y[k]),
            ) == Ordering::Equal by {
                if k < last {
                    assert(front_x[k] == x[k]);
                    assert(natural_order(key(front_x[k]), key(other[k])) == Ordering::Equal);
                    if k == j {
                        lemma_natural_order_transitive(key(x[k]), key(b), key(a));
                    }
                }
            }
        }
    }
}

/// Two sorted sequences of the same elements are the same sequence, where
/// elements that are equal in natural order are the same value.
pub proof fn lemma_sorted_with_same_elements<A>(x: Seq<A>, y: Seq<A>, key: spec_fn(A) -> Seq<u8>)
    requires
        sorted_by_key(x, key),
        sorted_by_key(y, key),
        x.to_multiset() == y.to_multiset(),
        ties_are_identical(y, key),
    ensures
        x == y,
{
    broadcast use vstd::seq_lib::group_to_multiset_ensures;

    lemma_sorted_with_same_elements_tied(x, y, key);
    assert forall|i: int| 0 <= i < x.len() implies x[i] == y[i] by {
        assert(x.contains(x[i]));
        assert(y.to_multiset().count(x[i]) > 0);
        assert(y.contains(x[i]));
        let j = choose|j: int| 0 <= j < y.len() && y[j] == x[i];
        assert(natural_order(key(y[j]), key(y[i])) == Ordering::Equal);
    }
    assert(x =~= y);
}

/// A sort, stable or not, of a sequence that is sorted already leaves at
/// each place an element that is equal in natural order to the one that
/// stood there.
pub proof fn lemma_sort_of_sorted_keeps_keys<A>(
    after: Seq<A>,
    before: Seq<A>,
    key: spec_fn(A) -> Seq<u8>,
)
    requires
        sorted_by_key(before, key),
        is_sort_of(after, before, key),
    ensures
        after.len() == before.len(),
        forall|i: int|
            0 <= i < after.len() ==> natural_order(key(#[trigger] after[i]), key(before[i]))
                == Ordering::Equal,
{
    lemma_sorted_with_same_elements_tied(after, before, key);
}

/// A sort, stable or not, leaves a sequence that is sorted already as it
/// is, where elements that are equal in natural order are the same value.
pub proof fn lemma_sort_of_sorted<A>(after: Seq<A>, before: Seq<A>, key: spec_fn(A) -> Seq<u8>)
    requires
        sorted_by_key(before, key),
        ties_are_identical(before, key),
        is_sort_of(after, before, key),
    ensures
        after == before,
{
    lemma_sorted_with_same_elements(after, before, key);
}

/// Along a function `g` that keeps the keys, the elements tied with a span
/// are the images of the elements tied with it.
pub proof fn lemma_tied_of_images<A, B>(
    s: Seq<A>,
    key: spec_fn(A) -> Seq<u8>,
    g: spec_fn(A) -> B,
    image_key: spec_fn(B) -> Seq<u8>,
    span: Seq<u8>,
)
    requires
        forall|i: int| 0 <= i < s.len() ==> key(#[trigger] s[i]) == image_key(g(s[i])),
    ensures
        tied(s.map_values(g), image_key, span) == tied(s, key, span).map_values(g),
    decreases s.len(),
{
    let images = s.map_values(g);
    if s.len() == 0 {
        reveal(Seq::filter);
        assert(tied(images, image_key, span) =~= tied(s, key, span).map_values(g));
    } else {
        let front = s.drop_last();
        assert forall|i: int| 0 <= i < front.len() implies key(#[trigger] front[i]) == image_key(
            g(front[i]),
        ) by {
            assert(front[i] == s[i]);
        }
        lemma_tied_of_images(front, key, g, image_key, span);
        lemma_tied_by_last(s, key, span);
        lemma_tied_by_last(images, image_key, span);
        assert(images.drop_last() =~= front.map_values(g));
        assert(images.last() == g(s.last()));
        assert(key(s[s.len() - 1]) == image_key(g(s[s.len() - 1])));
        assert(tied(images, image_key, span) =~= tied(s, key, span).map_values(g));
    }
}

/// A stable sort carries over to the images under a function `g` that
/// keeps the keys: the images of the sorted elements are sorted, and equal
/// ones stand in the order of the images of the elements before the sort.
pub proof fn lemma_stable_sort_of_images<A, B>(
    after: Seq<A>,
    before: Seq<A>,
    key: spec_fn(A) -> Seq<u8>,
    g: spec_fn(A) -> B,
    image_key: spec_fn(B) -> Seq<u8>,
)
    requires
        is_stable_sort_of(after, before, key),
        forall|i: int| 0 <= i < before.len() ==> key(#[trigger] before[i]) == image_key(g(before[i])),
    ensures
        sorted_by_key(after.map_values(g), image_key),
        keeps_ties(after.map_values(g), before.map_values(g), image_key),
{
    broadcast use vstd::seq_lib::group_to_multiset_ensures;

    assert forall|i: int| 0 <= i < after.len() implies key(#[trigger] after[i]) == image_key(
        g(after[i]),
    ) by {
        assert(after.contains(after[i]));
        assert(before.to_multiset().count(after[i]) > 0);
        assert(before.contains(after[i]));
        let j = choose|j: int| 0 <= j < before.len() && before[j] == after[i];
        assert(key(before[j]) == image_key(g(before[j])));
    }
    let images = after.map_values(g);
    assert forall|i: int, j: int| 0 <= i <= j < images.len() implies natural_order(
        image_key(images[i]),
        image_key(images[j]),
    ) != Ordering::Greater by {
        assert(natural_order(key(after[i]), key(after[j])) != Ordering::Greater);
    }
    assert forall|span: Seq<u8>| #[trigger]
        tied(images, image_key, span) == tied(before.map_values(g), image_key, span) by {
        lemma_tied_of_images(after, key, g, image_key, span);
        lemma_tied_of_images(before, key, g, image_key, span);
        assert(tied(after, key, span) == tied(before, key, span));
    }
}

} // verus!
