//! Small models shared by the commands.

pub mod stat_source;
