//! Reading ASCII grid rasters and rolling their cells up onto a hexagonal grid.
//!
//! `grid` holds the streaming reader of the grid's header and body, `cells`
//! the hexagonal cell identifiers, and `aggregate` the fine cell map, its
//! grouping under coarse ancestors and the coarse values.

pub mod aggregate;
pub mod cells;
pub mod grid;
