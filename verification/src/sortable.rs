//! The two views that have a natural order, text and ASCII bytes, and the
//! values that can be read as one of them.

use crate::order::{cmp_ascii, natural_order};
use std::cmp::Ordering;
use vstd::prelude::*;
use vstd::string::StringSliceAdditionalSpecFns;

verus! {

/// A view that has a natural order: `str`, read as its UTF-8 bytes, and
/// `[u8]`, read as ASCII. No other type can implement this trait.
pub trait NaturalSortable: crate::sealed::NaturalSortable {
    /// The bytes that the comparison reads.
    spec fn byte_span(&self) -> Seq<u8>;

    /// Compares two views in natural order.
    fn natural_cmp(&self, other: &Self) -> (ord: Ordering)
        ensures
            ord == natural_order(self.byte_span(), other.byte_span()),
    ;
}

impl NaturalSortable for str {
    open spec fn byte_span(&self) -> Seq<u8> {
        self.spec_bytes()
    }

    fn natural_cmp(&self, other: &Self) -> (ord: Ordering) {
        cmp_ascii(self.as_bytes(), other.as_bytes())
    }
}

impl NaturalSortable for [u8] {
    open spec fn byte_span(&self) -> Seq<u8> {
        self@
    }

    fn natural_cmp(&self, other: &Self) -> (ord: Ordering) {
        cmp_ascii(self, other)
    }
}

/// A value that can be read as the view `Ref`.
pub trait AsNatural<Ref: ?Sized + NaturalSortable> {
    /// The bytes of the value when it is read as a `Ref`.
    spec fn span(&self) -> Seq<u8>;

    /// Reads the value as a `Ref`.
    fn as_natural(&self) -> (view: &Ref)
        ensures
            view.byte_span() == self.span(),
    ;
}

impl AsNatural<str> for str {
    open spec fn span(&self) -> Seq<u8> {
        self.spec_bytes()
    }

    fn as_natural(&self) -> (view: &str) {
        self
    }
}

impl AsNatural<[u8]> for str {
    open spec fn span(&self) -> Seq<u8> {
        self.spec_bytes()
    }

    fn as_natural(&self) -> (view: &[u8]) {
        self.as_bytes()
    }
}

impl AsNatural<[u8]> for [u8] {
    open spec fn span(&self) -> Seq<u8> {
        self@
    }

    fn as_natural(&self) -> (view: &[u8]) {
        self
    }
}

impl<const N: usize> AsNatural<[u8]> for [u8; N] {
    open spec fn span(&self) -> Seq<u8> {
        self@
    }

    fn as_natural(&self) -> (view: &[u8]) {
        self.as_slice()
    }
}

impl AsNatural<str> for String {
    open spec fn span(&self) -> Seq<u8> {
        vstd::utf8::encode_utf8(self@)
    }

    fn as_natural(&self) -> (view: &str) {
        self.as_str()
    }
}

impl AsNatural<[u8]> for String {
    open spec fn span(&self) -> Seq<u8> {
        vstd::utf8::encode_utf8(self@)
    }

    fn as_natural(&self) -> (view: &[u8]) {
        self.as_str().as_bytes()
    }
}

impl AsNatural<[u8]> for Vec<u8> {
    open spec fn span(&self) -> Seq<u8> {
        self@
    }

    fn as_natural(&self) -> (view: &[u8]) {
        self.as_slice()
    }
}

impl<Ref: ?Sized + NaturalSortable, T: ?Sized + AsNatural<Ref>> AsNatural<Ref> for &T {
    open spec fn span(&self) -> Seq<u8> {
        AsNatural::<Ref>::span(*self)
    }

    fn as_natural(&self) -> (view: &Ref) {
        AsNatural::<Ref>::as_natural(*self)
    }
}

/// Compares two values in natural order, each read as the view `Ref`.
pub fn natural_cmp<Ref: ?Sized + NaturalSortable, T: ?Sized + AsNatural<Ref>>(x: &T, y: &T) -> (ord:
    Ordering)
    ensures
        ord == natural_order(AsNatural::<Ref>::span(x), AsNatural::<Ref>::span(y)),
{
    NaturalSortable::natural_cmp(x.as_natural(), y.as_natural())
}

} // verus!
