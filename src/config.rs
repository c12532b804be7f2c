use vstd::prelude::*;

verus! {

/// Connection settings for the incident service.
#[derive(Debug, Clone)]
pub struct Pagerduty {
    pub org: String,
    pub token: String,
    pub timezone: String,
    pub timezone_short: String,
    pub fetch_interval_sec: u32,
    pub since_days: u32,
    pub requester_id: String,
}

/// One rule: a description pattern, the command template it triggers and
/// the policy around running it.
#[derive(Debug, Clone)]
pub struct Action {
    pub alert: String,
    pub cmd: String,
    pub pause_sec: Option<u64>,
    pub resolve: Option<bool>,
    pub resolve_check: Option<String>,
}

/// The whole configuration of one run.
#[derive(Debug)]
pub struct Config {
    pub pagerduty: Pagerduty,
    pub actions: Vec<Action>,
}

} // verus!
