//! ESPN domain: league settings and rosters, drafts, the live draft protocol and
//! value-over-replacement ranking.

pub mod compute;
pub mod http;
pub mod draft;
pub mod live_draft;
pub mod types;
pub mod vor;
