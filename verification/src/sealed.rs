//! Marker traits that close the public traits of this crate: only the
//! types named here can implement them.

use vstd::prelude::*;

verus! {

/// Marks the views that have a natural order.
pub trait NaturalSortable {

}

impl NaturalSortable for str {

}

impl NaturalSortable for [u8] {

}

/// Marks the sequences that can be sorted in natural order.
pub trait NaturalSort {

}

impl<T> NaturalSort for [T] {

}

} // verus!
