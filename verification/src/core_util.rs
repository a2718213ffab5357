//! ESPN API request filters and the keys cached responses are stored under.

pub mod cache;
pub mod filters;

pub use filters::{build_players_filter, PlayersFilter, Val};
