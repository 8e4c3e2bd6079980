//! Keys that are computed once: each element's key is stored with the place
//! of the element, the stored keys are sorted, and the elements are moved
//! to the places that the sorted keys give.

use vstd::prelude::*;

verus! {

/// The key of one element, stored with the place at which the element
/// stood.
pub struct Cached<K> {
    pub key: K,
    pub index: usize,
}

/// Whether the entries are those of a slice of their number in its order:
/// each entry stands at the place that it names.
pub open spec fn in_slice_order<K>(cache: Seq<Cached<K>>) -> bool {
    forall|i: int| 0 <= i < cache.len() ==> (#[trigger] cache[i]).index == i
}

/// Whether the entries name each place below `n` once.
pub open spec fn names_each_place<K>(cache: Seq<Cached<K>>, n: nat) -> bool {
    &&& cache.len() == n
    &&& forall|i: int| 0 <= i < n ==> (#[trigger] cache[i]).index < n
    &&& forall|i: int, j: int|
        0 <= i < n && 0 <= j < n && i != j ==> (#[trigger] cache[i]).index != (
        #[trigger] cache[j]).index
}

/// The function that gives, for an entry, the element of `s` at the place
/// that the entry names.
pub open spec fn element_named<T, K>(s: Seq<T>) -> spec_fn(Cached<K>) -> T {
    |entry: Cached<K>| s[entry.index as int]
}

/// The elements of `s` in the order that the entries name.
pub open spec fn placed<T, K>(s: Seq<T>, cache: Seq<Cached<K>>) -> Seq<T> {
    cache.map_values(element_named(s))
}

/// Entries in the order of their slice, put into another order, still name
/// each place once, and each of them is the entry that stood at the place
/// that it names.
pub proof fn lemma_reordered_entries<K>(after: Seq<Cached<K>>, before: Seq<Cached<K>>)
    requires
        in_slice_order(before),
        after.to_multiset() == before.to_multiset(),
    ensures
        names_each_place(after, before.len()),
        forall|i: int| 0 <= i < after.len() ==> #[trigger] after[i] == before[after[i].index as int],
{
    broadcast use vstd::seq_lib::group_to_multiset_ensures;

    vstd::seq_lib::to_multiset_len(after);
    vstd::seq_lib::to_multiset_len(before);
    assert forall|i: int| 0 <= i < after.len() implies (#[trigger] after[i]).index < before.len()
        && after[i] == before[after[i].index as int] by {
        assert(after.contains(after[i]));
        assert(before.to_multiset().count(after[i]) > 0);
        assert(before.contains(after[i]));
        let j = choose|j: int| 0 <= j < before.len() && before[j] == after[i];
        assert(before[j].index == j);
    }
    assert(before.no_duplicates()) by {
        assert forall|i: int, j: int|
            0 <= i < before.len() && 0 <= j < before.len() && i != j implies before[i]
            != before[j] by {
            assert(before[i].index == i);
            assert(before[j].index == j);
        }
    }
    before.lemma_multiset_has_no_duplicates();
    after.lemma_multiset_has_no_duplicates_conv();
    assert forall|i: int, j: int|
        0 <= i < after.len() && 0 <= j < after.len() && i != j implies (#[trigger] after[i]).index
        != (#[trigger] after[j]).index by {
        assert(after[i] != after[j]);
    }
}

/// `<[T]>::swap` of std. Not proved here, but taken from what std
/// documents: the elements at `a` and `b` change places, the others stay,
/// and the call panics only where `a` or `b` is no place of the slice.
pub assume_specification<E>[ <[E]>::swap ](slice: &mut [E], a: usize, b: usize)
    requires
        a < old(slice)@.len(),
        b < old(slice)@.len(),
    ensures
        final(slice)@ == old(slice)@.update(a as int, old(slice)@[b as int]).update(
            b as int,
            old(slice)@[a as int],
        ),
;

/// Two elements that change places leave the same elements.
pub proof fn lemma_swap_keeps_elements<T>(s: Seq<T>, a: int, b: int)
    requires
        0 <= a < s.len(),
        0 <= b < s.len(),
    ensures
        s.update(a, s[b]).update(b, s[a]).to_multiset() == s.to_multiset(),
{
    let half = s.update(a, s[b]);
    vstd::seq_lib::to_multiset_update(s, a, s[b]);
    vstd::seq_lib::to_multiset_update(half, b, s[a]);
    broadcast use vstd::seq_lib::group_to_multiset_ensures;

    assert(s.contains(s[a]));
    assert(s.contains(s[b]));
    assert(half.update(b, s[a]).to_multiset() =~= s.to_multiset());
}

/// The places of a slice of length `n`, in their order.
fn places(n: usize) -> (all: Vec<usize>)
    ensures
        all@.len() == n,
        forall|i: int| 0 <= i < n ==> all@[i] == i,
{
    let mut all: Vec<usize> = Vec::new();
    let mut i: usize = 0;
    while i < n
        invariant
            i <= n,
            all@.len() == i,
            forall|j: int| 0 <= j < i ==> all@[j] == j,
        decreases n - i,
    {
        all.push(i);
        i += 1;
    }
    all
}

/// Asks `f` for the key of each element, once, in the order of the slice,
/// and stores what it returns with the place of the element.
pub fn cache_keys<T, K, F: FnMut(&T) -> K>(v: &[T], f: F) -> (cache: Vec<Cached<K>>)
    requires
        forall|i: int| 0 <= i < v@.len() ==> call_requires(f, (&#[trigger] v@[i],)),
    ensures
        cache@.len() == v@.len(),
        in_slice_order(cache@),
        forall|i: int|
            0 <= i < v@.len() ==> call_ensures(f, (&v@[i],), (#[trigger] cache@[i]).key),
{
    let mut ask = f;
    let mut cache: Vec<Cached<K>> = Vec::new();
    let mut i: usize = 0;
    while i < v.len()
        invariant
            i <= v@.len(),
            cache@.len() == i,
            ask == f,
            forall|j: int| 0 <= j < v@.len() ==> call_requires(f, (&#[trigger] v@[j],)),
            forall|j: int| 0 <= j < i ==> (#[trigger] cache@[j]).index == j,
            forall|j: int| 0 <= j < i ==> call_ensures(f, (&v@[j],), (#[trigger] cache@[j]).key),
        decreases v@.len() - i,
    {
        assert(call_requires(f, (&v@[i as int],)));
        let key = ask(&v[i]);
        cache.push(Cached { key, index: i });
        i += 1;
    }
    cache
}

/// Moves the elements of `v` to the places that the entries give: the
/// element that stood at the place that the first entry names comes first,
/// and so on.
pub fn place_in_order<T, K>(v: &mut [T], cache: &Vec<Cached<K>>)
    requires
        names_each_place(cache@, old(v)@.len()),
    ensures
        final(v)@ == placed(old(v)@, cache@),
        final(v)@.to_multiset() == old(v)@.to_multiset(),
{
    let ghost before = v@;
    let n = v.len();
    // `at[k]` is the place at which the element that is now at `k` stood;
    // `now[o]` is the place at which the element that stood at `o` is now.
    let mut at = places(n);
    let mut now = places(n);
    let mut i: usize = 0;
    while i < n
        invariant
            i <= n,
            n == before.len(),
            v@.len() == n,
            at@.len() == n,
            now@.len() == n,
            names_each_place(cache@, before.len()),
            v@.to_multiset() == before.to_multiset(),
            forall|k: int| 0 <= k < n ==> (#[trigger] at@[k]) < n && now@[at@[k] as int] == k,
            forall|o: int| 0 <= o < n ==> (#[trigger] now@[o]) < n && at@[now@[o] as int] == o,
            forall|k: int| 0 <= k < n ==> #[trigger] v@[k] == before[at@[k] as int],
            forall|k: int| 0 <= k < i ==> #[trigger] at@[k] == cache@[k].index,
        decreases n - i,
    {
        let from = cache[i].index;
        let there = now[from];
        let moved = at[i];
        proof {
            // The element that goes to `i` is not at one of the places
            // that are filled already.
            if there < i {
                assert(at@[there as int] == cache@[there as int].index);
                assert(cache@[there as int].index != cache@[i as int].index);
            }
            lemma_swap_keeps_elements(v@, i as int, there as int);
        }
        v.swap(i, there);
        at.set(there, moved);
        now.set(moved, there);
        at.set(i, from);
        now.set(from, i);
        i += 1;
    }
    proof {
        assert(v@ =~= placed(before, cache@));
    }
}

} // verus!
