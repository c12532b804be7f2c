use pdautomator::config::{Action, Config, Pagerduty};
use pdautomator::dispatch::should_resolve;
use pdautomator::pagerduty::{Incident, TriggerSummaryData};
use pdautomator::rules::get_commands_by_actions;

fn action(alert: &str, cmd: &str) -> Action {
    Action {
        alert: alert.to_string(),
        cmd: cmd.to_string(),
        pause_sec: None,
        resolve: None,
        resolve_check: None,
    }
}

fn config(actions: Vec<Action>) -> Config {
    Config {
        pagerduty: Pagerduty {
            org: "acme".to_string(),
            token: "SECRET-REDACTED".to_string(),
            timezone: "UTC".to_string(),
            timezone_short: "Z".to_string(),
            fetch_interval_sec: 60,
            since_days: 1,
            requester_id: "PABC".to_string(),
        },
        actions,
    }
}

fn incident(id: Option<&str>, description: Option<&str>) -> Incident {
    Incident {
        id: id.map(|s| s.to_string()),
        incident_number: None,
        created_on: None,
        status: None,
        service: None,
        trigger_summary_data: Some(TriggerSummaryData {
            description: description.map(|s| s.to_string()),
        }),
        last_status_change_on: None,
        resolved_by_user: None,
        acknowledgers: None,
    }
}

fn pairs(v: &[(&str, &str)]) -> Vec<(String, String)> {
    v.iter().map(|(a, b)| (a.to_string(), b.to_string())).collect()
}

#[test]
fn prefix_of_pattern_does_not_match() {
    let cfg = config(vec![action("foo bar", "echo hit")]);
    let incidents = vec![
        incident(Some("1"), Some("foo")),
        incident(Some("2"), Some("foo bar")),
        incident(Some("3"), Some("xx foo bar")),
        incident(Some("4"), Some("foo bar baz")),
    ];
    let cmds = get_commands_by_actions(&incidents, &cfg).unwrap();
    assert_eq!(cmds, vec![pairs(&[("2", "echo hit")])]);
}

#[test]
fn incident_matching_two_rules_is_listed_under_both() {
    let cfg = config(vec![
        action("disk full on (\\w+)", "clean $1"),
        action("disk .*", "notify"),
        action("cpu high", "top"),
    ]);
    let incidents = vec![
        incident(Some("7"), Some("disk full on web1")),
        incident(Some("8"), Some("memory low")),
    ];
    let cmds = get_commands_by_actions(&incidents, &cfg).unwrap();
    assert_eq!(cmds.len(), 3);
    assert_eq!(cmds[0], pairs(&[("7", "clean web1")]));
    assert_eq!(cmds[1], pairs(&[("7", "notify")]));
    assert!(cmds[2].is_empty());
}

#[test]
fn incidents_without_id_or_description_are_dropped() {
    let cfg = config(vec![action("restart (\\w+)", "systemctl restart $1")]);
    let mut no_summary = incident(Some("3"), None);
    no_summary.trigger_summary_data = None;
    let incidents = vec![
        incident(None, Some("restart a")),
        incident(Some("2"), None),
        no_summary,
        incident(Some("4"), Some("restart b")),
    ];
    let cmds = get_commands_by_actions(&incidents, &cfg).unwrap();
    assert_eq!(cmds, vec![pairs(&[("4", "systemctl restart b")])]);
}

#[test]
fn description_and_pattern_are_trimmed() {
    let cfg = config(vec![action("  restart (\\w+) ", "systemctl restart $1")]);
    let incidents = vec![incident(Some("5"), Some("  restart nginx \n"))];
    let cmds = get_commands_by_actions(&incidents, &cfg).unwrap();
    assert_eq!(cmds, vec![pairs(&[("5", "systemctl restart nginx")])]);
}

#[test]
fn order_of_incidents_is_kept() {
    let cfg = config(vec![action("restart (\\w+)", "systemctl restart $1")]);
    let incidents = vec![
        incident(Some("9"), Some("restart b")),
        incident(Some("1"), Some("restart a")),
    ];
    let cmds = get_commands_by_actions(&incidents, &cfg).unwrap();
    assert_eq!(
        cmds,
        vec![pairs(&[("9", "systemctl restart b"), ("1", "systemctl restart a")])]
    );
}

#[test]
fn invalid_pattern_is_an_error() {
    let cfg = config(vec![action("restart (", "x"), action("ok", "y")]);
    let incidents = vec![incident(Some("1"), Some("ok"))];
    assert!(get_commands_by_actions(&incidents, &cfg).is_err());
}

#[test]
fn no_rules_no_work() {
    let cfg = config(vec![]);
    let incidents = vec![incident(Some("1"), Some("ok"))];
    assert_eq!(get_commands_by_actions(&incidents, &cfg).unwrap().len(), 0);
}

#[test]
fn end_to_end_restart_scenario() {
    let mut rule = action("restart (\\w+)", "systemctl restart $1");
    rule.resolve = Some(true);
    rule.resolve_check = Some("active".to_string());
    let cfg = config(vec![rule.clone()]);
    let incidents = vec![
        incident(Some("1"), Some("restart nginx")),
        incident(Some("2"), Some("scale up db")),
    ];
    let cmds = get_commands_by_actions(&incidents, &cfg).unwrap();
    assert_eq!(cmds, vec![pairs(&[("1", "systemctl restart nginx")])]);
    assert_eq!(should_resolve(&rule, "nginx is active (running)").unwrap(), true);
    assert_eq!(should_resolve(&rule, "failed").unwrap(), false);
}

#[test]
fn resolve_only_when_asked() {
    let mut rule = action("x", "y");
    assert_eq!(should_resolve(&rule, "anything").unwrap(), false);
    rule.resolve = Some(false);
    rule.resolve_check = Some("any".to_string());
    assert_eq!(should_resolve(&rule, "anything").unwrap(), false);
    rule.resolve = Some(true);
    rule.resolve_check = None;
    assert_eq!(should_resolve(&rule, "").unwrap(), true);
    rule.resolve_check = Some("^ok$".to_string());
    assert_eq!(should_resolve(&rule, "ok").unwrap(), true);
    assert_eq!(should_resolve(&rule, "not ok").unwrap(), false);
}

#[test]
fn invalid_check_pattern_is_an_error_only_when_tested() {
    let mut rule = action("x", "y");
    rule.resolve_check = Some("(".to_string());
    assert_eq!(should_resolve(&rule, "out").unwrap(), false);
    rule.resolve = Some(true);
    assert!(should_resolve(&rule, "out").is_err());
}
