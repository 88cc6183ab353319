//! Types and functions used for laying out widgets.
pub mod grid;
