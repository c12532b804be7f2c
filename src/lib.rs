//! Synchronises open incidents from PagerDuty, matches each incident's
//! description against configured rules and plans the remediation commands.

pub mod config;
pub mod dispatch;
pub mod pagerduty;
pub mod query;
pub mod rules;
pub mod text;
