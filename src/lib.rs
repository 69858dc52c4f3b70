//! In-place bubble sort over partially ordered elements.
//!
//! Elements that compare with nothing (such as a floating-point NaN) are
//! moved to the end of the slice, and the sort reports how many leading
//! elements form a totally ordered, sorted run.
pub mod cards;
pub mod order;
pub mod sort;


pub use cards::{Poker, Suit};
pub use sort::bubble_sort;
