//! Sorting a slice in natural order: by its elements or by a key that a
//! function gives to each element, stable or not.

use crate::cached::{
    cache_keys, element_named, lemma_reordered_entries, place_in_order, placed, Cached,
};
use crate::keys::{fn_key, is_key_of, key_span, returns_key, span_key};
use crate::order::natural_order;
use crate::sortable::{natural_cmp, AsNatural, NaturalSortable};
use crate::sorted::{
    is_sort_of, is_stable_sort_of, lemma_same_length, lemma_stable_sort_of_images,
};
use std::cmp::Ordering;
use std::marker::PhantomData;
use vstd::prelude::*;

verus! {

/// A way to compare two elements in natural order of their keys. Whatever
/// implements it compares by a total preorder: the natural order of the two
/// spans, which does not change between two comparisons.
pub(crate) trait Keyed<T> {
    /// Whether `x` can be compared.
    spec fn admits(&self, x: T) -> bool;

    /// The span by which `x` is ordered.
    spec fn span_of(&self, x: T) -> Seq<u8>;

    /// Compares two elements in natural order of their spans.
    fn compare(&mut self, x: &T, y: &T) -> (ord: Ordering)
        requires
            old(self).admits(*x),
            old(self).admits(*y),
        ensures
            ord == natural_order(old(self).span_of(*x), old(self).span_of(*y)),
            forall|z: T| old(self).admits(z) ==> final(self).admits(z),
            forall|z: T| final(self).span_of(z) == old(self).span_of(z),
    ;
}

/// The key function of a comparison.
pub(crate) open spec fn key_of<T, C: Keyed<T>>(by: C) -> spec_fn(T) -> Seq<u8> {
    |x: T| by.span_of(x)
}

/// Compares elements that are read as a `Ref` themselves.
pub(crate) struct BySpan<Ref: ?Sized>(pub PhantomData<Ref>);

impl<Ref: ?Sized + NaturalSortable, T: AsNatural<Ref>> Keyed<T> for BySpan<Ref> {
    open spec fn admits(&self, x: T) -> bool {
        true
    }

    open spec fn span_of(&self, x: T) -> Seq<u8> {
        AsNatural::<Ref>::span(&x)
    }

    fn compare(&mut self, x: &T, y: &T) -> (ord: Ordering) {
        natural_cmp::<Ref, T>(x, y)
    }
}

/// Compares elements by the keys that a function gives to them; each
/// comparison asks the function for both keys.
pub(crate) struct ByKey<Ref: ?Sized, F>(pub F, pub PhantomData<Ref>);

impl<Ref: ?Sized + NaturalSortable, T, K: AsNatural<Ref>, F: FnMut(&T) -> K> Keyed<T> for ByKey<
    Ref,
    F,
> {
    open spec fn admits(&self, x: T) -> bool {
        is_key_of::<Ref, T, K, F>(self.0, x)
    }

    open spec fn span_of(&self, x: T) -> Seq<u8> {
        key_span::<Ref, T, K, F>(self.0, x)
    }

    fn compare(&mut self, x: &T, y: &T) -> (ord: Ordering) {
        let key_x = (self.0)(x);
        let key_y = (self.0)(y);
        natural_cmp::<Ref, K>(&key_x, &key_y)
    }
}

/// Compares stored keys.
pub(crate) struct ByCachedKey<Ref: ?Sized>(pub PhantomData<Ref>);

impl<Ref: ?Sized + NaturalSortable, K: AsNatural<Ref>> Keyed<Cached<K>> for ByCachedKey<Ref> {
    open spec fn admits(&self, x: Cached<K>) -> bool {
        true
    }

    open spec fn span_of(&self, x: Cached<K>) -> Seq<u8> {
        AsNatural::<Ref>::span(&x.key)
    }

    fn compare(&mut self, x: &Cached<K>, y: &Cached<K>) -> (ord: Ordering) {
        natural_cmp::<Ref, K>(&x.key, &y.key)
    }
}

/// Calls `<[T]>::sort_by` of std with the comparison `by`.
///
/// Not proved here, but taken from what std documents: the sort keeps every
/// element of the slice, puts the elements in ascending order of the
/// comparison, and is stable, so that elements which compare as equal stay
/// in the order in which they stood. std asks that the comparison be a total
/// order; `by` compares by the natural order of spans, which is one on the
/// elements that it admits.
#[verifier::external_body]
fn sort_by<T, C: Keyed<T>>(v: &mut [T], by: C)
    requires
        forall|i: int| 0 <= i < old(v)@.len() ==> by.admits(#[trigger] old(v)@[i]),
    ensures
        is_stable_sort_of(final(v)@, old(v)@, key_of(by)),
{
    let mut by = by;
    v.sort_by(|x, y| by.compare(x, y))
}

/// Calls `<[T]>::sort_unstable_by` of std with the comparison `by`.
///
/// Not proved here, but taken from what std documents: the sort keeps every
/// element of the slice and puts the elements in ascending order of the
/// comparison. Where elements which compare as equal stand among
/// themselves is left open. std asks that the comparison be a total order;
/// `by` compares by the natural order of spans, which is one on the
/// elements that it admits.
#[verifier::external_body]
fn sort_unstable_by<T, C: Keyed<T>>(v: &mut [T], by: C)
    requires
        forall|i: int| 0 <= i < old(v)@.len() ==> by.admits(#[trigger] old(v)@[i]),
    ensures
        is_sort_of(final(v)@, old(v)@, key_of(by)),
{
    let mut by = by;
    v.sort_unstable_by(|x, y| by.compare(x, y))
}

/// Sorting in natural order, for slices. Each operation names the view,
/// `str` or `[u8]`, as which the elements or their keys are read.
pub trait NaturalSort<T>: crate::sealed::NaturalSort {
    /// The elements of the sequence.
    spec fn elements(&self) -> Seq<T>;

    /// Sorts the elements in natural order; elements that are equal in
    /// natural order may change places.
    fn natural_sort_unstable<Ref: ?Sized + NaturalSortable>(&mut self) where T: AsNatural<Ref>
        ensures
            final(self).elements().len() == old(self).elements().len(),
            (is_sort_of(final(self).elements(), old(self).elements(), span_key::<Ref, T>())),
    ;

    /// Sorts the elements in natural order of the keys that `f` gives to
    /// them; elements with equal keys may change places. Each comparison
    /// asks `f` for both keys.
    fn natural_sort_unstable_by_key<Ref: ?Sized + NaturalSortable, K, F>(&mut self, f: F) where
        F: FnMut(&T) -> K,
        K: AsNatural<Ref>,

        requires
            (forall|i: int|
                0 <= i < old(self).elements().len() ==> is_key_of::<Ref, T, K, F>(
                    f,
                    #[trigger] old(self).elements()[i],
                )),
        ensures
            final(self).elements().len() == old(self).elements().len(),
            (is_sort_of(
                final(self).elements(),
                old(self).elements(),
                fn_key::<Ref, T, K, F>(f),
            )),
    ;

    /// Sorts the elements in natural order and keeps elements that are
    /// equal in natural order in their order.
    fn natural_sort<Ref: ?Sized + NaturalSortable>(&mut self) where T: AsNatural<Ref>
        ensures
            final(self).elements().len() == old(self).elements().len(),
            (is_stable_sort_of(final(self).elements(), old(self).elements(), span_key::<Ref, T>())),
    ;

    /// Sorts the elements in natural order of the keys that `f` gives to
    /// them and keeps elements with equal keys in their order. Each
    /// comparison asks `f` for both keys.
    fn natural_sort_by_key<Ref: ?Sized + NaturalSortable, K, F>(&mut self, f: F) where
        F: FnMut(&T) -> K,
        K: AsNatural<Ref>,

        requires
            (forall|i: int|
                0 <= i < old(self).elements().len() ==> is_key_of::<Ref, T, K, F>(
                    f,
                    #[trigger] old(self).elements()[i],
                )),
        ensures
            final(self).elements().len() == old(self).elements().len(),
            (is_stable_sort_of(
                final(self).elements(),
                old(self).elements(),
                fn_key::<Ref, T, K, F>(f),
            )),
    ;

    /// Sorts the elements in natural order of the keys that `f` gives to
    /// them and keeps elements with equal keys in their order. `f` is asked
    /// once for the key of each element, before the sort; the keys are
    /// stored while it runs.
    fn natural_sort_by_cached_key<Ref: ?Sized + NaturalSortable, K, F>(&mut self, f: F) where
        F: FnMut(&T) -> K,
        K: AsNatural<Ref>,

        requires
            (forall|i: int|
                0 <= i < old(self).elements().len() ==> is_key_of::<Ref, T, K, F>(
                    f,
                    #[trigger] old(self).elements()[i],
                )),
        ensures
            final(self).elements().len() == old(self).elements().len(),
            (is_stable_sort_of(
                final(self).elements(),
                old(self).elements(),
                fn_key::<Ref, T, K, F>(f),
            )),
            forall|i: int|
                0 <= i < old(self).elements().len() ==> returns_key(
                    f,
                    #[trigger] old(self).elements()[i],
                ),
    ;
}

impl<T> NaturalSort<T> for [T] {
    open spec fn elements(&self) -> Seq<T> {
        self@
    }

    fn natural_sort_unstable<Ref: ?Sized + NaturalSortable>(&mut self) where T: AsNatural<Ref> {
        let ghost before = self@;
        let by = BySpan::<Ref>(PhantomData);
        assert(key_of::<T, BySpan<Ref>>(by) =~= span_key::<Ref, T>());
        sort_unstable_by(self, by);
        proof {
            lemma_same_length(self@, before);
        }
    }

    fn natural_sort_unstable_by_key<Ref: ?Sized + NaturalSortable, K, F>(&mut self, f: F) where
        F: FnMut(&T) -> K,
        K: AsNatural<Ref>,
     {
        let ghost before = self@;
        let by = ByKey::<Ref, F>(f, PhantomData);
        assert(key_of::<T, ByKey<Ref, F>>(by) =~= fn_key::<Ref, T, K, F>(f));
        assert forall|i: int| 0 <= i < self@.len() implies by.admits(#[trigger] self@[i]) by {
            assert(is_key_of::<Ref, T, K, F>(f, self.elements()[i]));
        }
        sort_unstable_by(self, by);
        proof {
            lemma_same_length(self@, before);
        }
    }

    fn natural_sort<Ref: ?Sized + NaturalSortable>(&mut self) where T: AsNatural<Ref> {
        let ghost before = self@;
        let by = BySpan::<Ref>(PhantomData);
        assert(key_of::<T, BySpan<Ref>>(by) =~= span_key::<Ref, T>());
        sort_by(self, by);
        proof {
            lemma_same_length(self@, before);
        }
    }

    fn natural_sort_by_key<Ref: ?Sized + NaturalSortable, K, F>(&mut self, f: F) where
        F: FnMut(&T) -> K,
        K: AsNatural<Ref>,
     {
        let ghost before = self@;
        let by = ByKey::<Ref, F>(f, PhantomData);
        assert(key_of::<T, ByKey<Ref, F>>(by) =~= fn_key::<Ref, T, K, F>(f));
        assert forall|i: int| 0 <= i < self@.len() implies by.admits(#[trigger] self@[i]) by {
            assert(is_key_of::<Ref, T, K, F>(f, self.elements()[i]));
        }
        sort_by(self, by);
        proof {
            lemma_same_length(self@, before);
        }
    }

    fn natural_sort_by_cached_key<Ref: ?Sized + NaturalSortable, K, F>(&mut self, f: F) where
        F: FnMut(&T) -> K,
        K: AsNatural<Ref>,
     {
        let ghost before = self@;
        assert forall|i: int| 0 <= i < before.len() implies is_key_of::<Ref, T, K, F>(
            f,
            #[trigger] before[i],
        ) by {
            assert(is_key_of::<Ref, T, K, F>(f, self.elements()[i]));
        }
        let mut cache = cache_keys(self, f);
        let ghost unsorted = cache@;
        let by = ByCachedKey::<Ref>(PhantomData);
        sort_by(cache.as_mut_slice(), by);
        proof {
            lemma_reordered_entries(cache@, unsorted);
        }
        place_in_order(self, &cache);
        proof {
            let stored_key = key_of::<Cached<K>, ByCachedKey<Ref>>(by);
            let element = element_named::<T, K>(before);
            let key = fn_key::<Ref, T, K, F>(f);
            assert forall|i: int| 0 <= i < unsorted.len() implies stored_key(
                #[trigger] unsorted[i],
            ) == key(element(unsorted[i])) by {
                assert(unsorted[i].index == i);
                assert(is_key_of::<Ref, T, K, F>(f, before[i]));
            }
            assert forall|i: int| 0 <= i < before.len() implies returns_key(
                f,
                #[trigger] before[i],
            ) by {
                assert(call_ensures(f, (&before[i],), unsorted[i].key));
            }
            lemma_stable_sort_of_images(cache@, unsorted, stored_key, element, key);
            assert(self@ == placed(before, cache@));
            assert(before =~= unsorted.map_values(element));
            lemma_same_length(self@, before);
        }
    }
}

} // verus!
