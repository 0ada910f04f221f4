//! Automatic grid layout: partition a rectangular area into `n`
//! equally-sized (as far as integer coordinates allow) cells, arranged in
//! row-major order with a uniform spacing between neighbouring cells.
//!
//! The partition is computed in three verified steps:
//! - [`dims`] picks a column and row count from `n` (columns are the
//!   ceiling of the square root of `n`, rows the ceiling of `n / columns`);
//! - [`split`] divides an extent into equal proportional bands, spacing
//!   subtracted from the divisible extent, earlier bands receiving the
//!   remainder;
//! - [`grid`] combines a vertical and a horizontal split into the final
//!   row-major sequence of cells.
//!
//! [`laws`] states and proves the structural properties of the partition:
//! every cell lies within the input area, cells of one row share their
//! y-coordinate and height, and growing the spacing never grows a cell.

pub mod dims;
pub mod grid;
pub mod laws;
pub mod rect;
pub mod split;

pub use grid::auto_grid;
pub use rect::Rect;
