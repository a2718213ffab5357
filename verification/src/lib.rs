//! ESPN Fantasy Football library: identifiers, positions, filters, cache keys, draft state,
//! value-over-replacement ranking and the live draft protocol, with their contracts.
//!
//! Set `ESPN_FFL_LEAGUE_ID` to avoid passing a league id to every command.

pub mod cli;
pub mod cli_types;
pub mod commands;
pub mod core_util;
pub mod error;
pub mod espn;
pub mod filters;
pub mod models;
pub mod positions;
pub mod text;

pub use cli::types::ids::{LeagueId, PlayerId};
pub use cli::types::position::Position;
pub use cli::types::time::{Season, Week};
pub use commands::league_data::LEAGUE_ID_ENV_VAR;
pub use error::{EspnError, Result};
pub use espn::types::LeagueSettings;
