//! Natural sort order for text and ASCII byte strings: runs of decimal
//! digits compare by the number they denote, all other bytes one by one.

pub mod cached;
pub mod digits;
pub mod keys;
pub mod laws;
pub mod natural;
pub mod order;
mod sealed;
pub mod sort;
pub mod sortable;
pub mod sorted;

pub use crate::natural::{Natural, NaturalAscii};
pub use crate::sort::NaturalSort;
pub use crate::sortable::{natural_cmp, AsNatural, NaturalSortable};
