//! The lineup positions, keyed by ESPN's lineup slot ids (`D` 16, `FLEX` 23, `K` 17, `RB` 2,
//! `QB` 0, `TE` 6, `WR` 4); the same type the command-line types use.

pub use crate::cli_types::Position;
