//! The byte span under which an element is sorted: its own, or that of the
//! key that a function gives to it.

use crate::sortable::{AsNatural, NaturalSortable};
use vstd::prelude::*;

verus! {

/// The key under which an element is sorted when it is read as a `Ref`
/// itself.
pub open spec fn span_key<Ref: ?Sized + NaturalSortable, T: AsNatural<Ref>>() -> spec_fn(T) -> Seq<
    u8,
> {
    |x: T| AsNatural::<Ref>::span(&x)
}

/// The span of the key that `f` returns for `x`.
pub open spec fn key_span<Ref: ?Sized + NaturalSortable, T, K: AsNatural<Ref>, F: FnMut(&T) -> K>(
    f: F,
    x: T,
) -> Seq<u8> {
    AsNatural::<Ref>::span(&choose|k: K| call_ensures(f, (&x,), k))
}

/// Whether `f` can be asked for the key of `x` and is a function there:
/// whatever it returns for `x` has the same span.
pub open spec fn is_key_of<Ref: ?Sized + NaturalSortable, T, K: AsNatural<Ref>, F: FnMut(&T) -> K>(
    f: F,
    x: T,
) -> bool {
    &&& call_requires(f, (&x,))
    &&& forall|k: K| call_ensures(f, (&x,), k) ==> AsNatural::<Ref>::span(&k) == key_span::<Ref, T, K, F>(f, x)
}

/// A function that can be asked for the key of `x`, and whose results for
/// `x` all have one span, is a key function at `x`.
pub proof fn lemma_is_key_of<Ref: ?Sized + NaturalSortable, T, K: AsNatural<Ref>, F: FnMut(&T) -> K>(
    f: F,
    x: T,
)
    requires
        call_requires(f, (&x,)),
        forall|k1: K, k2: K|
            call_ensures(f, (&x,), k1) && call_ensures(f, (&x,), k2) ==> AsNatural::<Ref>::span(
                &k1,
            ) == AsNatural::<Ref>::span(&k2),
    ensures
        is_key_of::<Ref, T, K, F>(f, x),
{
    assert forall|k: K| call_ensures(f, (&x,), k) implies AsNatural::<Ref>::span(&k) == key_span::<
        Ref,
        T,
        K,
        F,
    >(f, x) by {
        let chosen = choose|k: K| call_ensures(f, (&x,), k);
        assert(call_ensures(f, (&x,), chosen));
    }
}

/// Whether `f` returns a key for `x`: some value is a result of `f` at `x`.
pub open spec fn returns_key<T, K, F: FnMut(&T) -> K>(f: F, x: T) -> bool {
    exists|k: K| call_ensures(f, (&x,), k)
}

/// The key under which an element is sorted when `f` gives the keys.
pub open spec fn fn_key<Ref: ?Sized + NaturalSortable, T, K: AsNatural<Ref>, F: FnMut(&T) -> K>(
    f: F,
) -> spec_fn(T) -> Seq<u8> {
    |x: T| key_span::<Ref, T, K, F>(f, x)
}

} // verus!
