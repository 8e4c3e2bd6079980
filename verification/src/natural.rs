//! A wrapper whose equality and order are the natural order of the value
//! that it holds.

use crate::order::natural_order;
use crate::sortable::{natural_cmp, AsNatural, NaturalSortable};
use std::cmp::Ordering;
use std::marker::PhantomData;
use vstd::prelude::*;
use vstd::std_specs::cmp::{PartialEqSpecImpl, PartialOrdSpecImpl};

verus! {

/// A value of type `T` that is compared in natural order, read as the view
/// `Ref`: as text where `Ref` is `str`, as ASCII bytes where it is `[u8]`.
/// The order of `T` itself plays no part.
#[derive(Debug)]
pub struct Natural<T, Ref: ?Sized = str>(pub T, pub PhantomData<Ref>);

/// A value that is compared in natural order as ASCII bytes.
pub type NaturalAscii<T> = Natural<T, [u8]>;

impl<T, Ref: ?Sized> Natural<T, Ref> {
    /// Wraps `value`; the view is chosen by the type `Ref`.
    pub fn new(value: T) -> (wrapped: Self)
        ensures
            wrapped.0 == value,
    {
        Self(value, PhantomData)
    }
}

impl<T> Natural<T> {
    /// Wraps `value` to be compared as text.
    pub fn str(value: T) -> (wrapped: Self)
        ensures
            wrapped.0 == value,
    {
        Self(value, PhantomData)
    }
}

impl<T> NaturalAscii<T> {
    /// Wraps `value` to be compared as ASCII bytes.
    pub fn ascii(value: T) -> (wrapped: Self)
        ensures
            wrapped.0 == value,
    {
        Self(value, PhantomData)
    }
}

impl<T: AsNatural<Ref>, Ref: ?Sized + NaturalSortable> Natural<T, Ref> {
    /// The bytes that a comparison of this value reads.
    pub open spec fn span(&self) -> Seq<u8> {
        AsNatural::<Ref>::span(&self.0)
    }

    /// Reads the wrapped value as a `Ref`.
    pub fn as_ref(&self) -> (view: &Ref)
        ensures
            view.byte_span() == self.span(),
    {
        AsNatural::<Ref>::as_natural(&self.0)
    }

    /// Compares two wrapped values in natural order.
    pub fn cmp(&self, other: &Self) -> (ord: Ordering)
        ensures
            ord == natural_order(self.span(), other.span()),
    {
        natural_cmp::<Ref, T>(&self.0, &other.0)
    }
}

impl<T: Clone, Ref: ?Sized> Clone for Natural<T, Ref> {
    fn clone(&self) -> (copy: Self)
        ensures
            call_ensures(T::clone, (&self.0,), copy.0),
    {
        Self(self.0.clone(), PhantomData)
    }
}

impl<T: AsNatural<Ref>, Ref: ?Sized + NaturalSortable> AsNatural<Ref> for Natural<T, Ref> {
    open spec fn span(&self) -> Seq<u8> {
        AsNatural::<Ref>::span(&self.0)
    }

    fn as_natural(&self) -> (view: &Ref) {
        AsNatural::<Ref>::as_natural(&self.0)
    }
}

impl<T: AsNatural<Ref>, Ref: ?Sized + NaturalSortable> PartialEq for Natural<T, Ref> {
    fn eq(&self, other: &Self) -> (equal: bool) {
        match self.cmp(other) {
            Ordering::Equal => true,
            _ => false,
        }
    }
}

impl<T: AsNatural<Ref>, Ref: ?Sized + NaturalSortable> PartialEqSpecImpl for Natural<T, Ref> {
    open spec fn obeys_eq_spec() -> bool {
        true
    }

    open spec fn eq_spec(&self, other: &Self) -> bool {
        natural_order(self.span(), other.span()) == Ordering::Equal
    }
}

impl<T: AsNatural<Ref>, Ref: ?Sized + NaturalSortable> Eq for Natural<T, Ref> {

}

impl<T: AsNatural<Ref>, Ref: ?Sized + NaturalSortable> PartialOrd for Natural<T, Ref> {
    fn partial_cmp(&self, other: &Self) -> (ord: Option<Ordering>) {
        Some(self.cmp(other))
    }
}

impl<T: AsNatural<Ref>, Ref: ?Sized + NaturalSortable> PartialOrdSpecImpl for Natural<T, Ref> {
    open spec fn obeys_partial_cmp_spec() -> bool {
        true
    }

    open spec fn partial_cmp_spec(&self, other: &Self) -> Option<Ordering> {
        Some(natural_order(self.span(), other.span()))
    }
}

} // verus!
