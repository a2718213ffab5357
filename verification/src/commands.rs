//! The rules behind the command-line commands: shared parameters, league id resolution,
//! player filtering and the draft board.

pub mod common;
pub mod player_filters;
pub mod draft_board;
pub mod draft_pool;
pub mod draft_prompt;
pub mod league_data;
