use pdautomator::pagerduty::{
    aggregate_pages, next_offsets, remaining_offsets, Incident, IncidentStatus, IncidentsResponse,
    MissingPage,
};

fn incident(id: &str) -> Incident {
    Incident {
        id: Some(id.to_string()),
        incident_number: None,
        created_on: None,
        status: None,
        service: None,
        trigger_summary_data: None,
        last_status_change_on: None,
        resolved_by_user: None,
        acknowledgers: None,
    }
}

fn page(ids: &[&str], limit: u32, offset: u32, total: u32) -> IncidentsResponse {
    IncidentsResponse {
        incidents: ids.iter().map(|s| incident(s)).collect(),
        limit,
        offset,
        total,
    }
}

fn ids(v: &[Incident]) -> Vec<String> {
    v.iter().map(|i| i.id.clone().unwrap()).collect()
}

#[test]
fn offsets_cover_the_total() {
    assert_eq!(next_offsets(250, 100), vec![100, 200]);
    assert_eq!(next_offsets(200, 100), vec![100]);
    assert_eq!(next_offsets(201, 100), vec![100, 200]);
    assert_eq!(next_offsets(100, 100), Vec::<u32>::new());
    assert_eq!(next_offsets(30, 100), Vec::<u32>::new());
    assert_eq!(next_offsets(0, 100), Vec::<u32>::new());
    assert_eq!(next_offsets(5, 0), Vec::<u32>::new());
}

#[test]
fn offsets_near_the_largest_total() {
    let max = u32::MAX;
    assert_eq!(next_offsets(max, max / 2), vec![max / 2, max / 2 * 2]);
    assert_eq!(next_offsets(max, max), Vec::<u32>::new());
}

#[test]
fn empty_first_page_requests_nothing_more() {
    let first = page(&[], 100, 0, 500);
    let plan = remaining_offsets(&first);
    assert!(plan.is_empty());
    let all = aggregate_pages(first, &plan, vec![]).unwrap();
    assert!(all.is_empty());
}

#[test]
fn full_first_page_plans_the_rest() {
    let first = page(&["a", "b"], 2, 0, 5);
    assert_eq!(remaining_offsets(&first), vec![2, 4]);
}

#[test]
fn pages_are_joined_by_offset_not_arrival() {
    let first = page(&["a", "b"], 2, 0, 7);
    let plan = remaining_offsets(&first);
    assert_eq!(plan, vec![2, 4, 6]);
    let arrived = vec![
        page(&["g"], 2, 6, 7),
        page(&["c", "d"], 2, 2, 7),
        page(&["e", "f"], 2, 4, 7),
    ];
    let all = aggregate_pages(first, &plan, arrived).unwrap();
    assert_eq!(ids(&all), vec!["a", "b", "c", "d", "e", "f", "g"]);
}

#[test]
fn same_pages_in_any_order_give_the_same_listing() {
    let plan = vec![2, 4];
    let one = aggregate_pages(
        page(&["a", "b"], 2, 0, 6),
        &plan,
        vec![page(&["c", "d"], 2, 2, 6), page(&["e", "f"], 2, 4, 6)],
    )
    .unwrap();
    let two = aggregate_pages(
        page(&["a", "b"], 2, 0, 6),
        &plan,
        vec![page(&["e", "f"], 2, 4, 6), page(&["c", "d"], 2, 2, 6)],
    )
    .unwrap();
    assert_eq!(ids(&one), ids(&two));
}

#[test]
fn missing_page_is_an_error() {
    let first = page(&["a", "b"], 2, 0, 7);
    let plan = vec![2, 4, 6];
    let arrived = vec![page(&["g"], 2, 6, 7), page(&["c", "d"], 2, 2, 7)];
    let r = aggregate_pages(first, &plan, arrived);
    assert_eq!(r.unwrap_err(), MissingPage { offset: 4 });
}

#[test]
fn status_names() {
    assert_eq!(IncidentStatus::Triggered.as_str(), "triggered");
    assert_eq!(IncidentStatus::Acknowledged.as_str(), "acknowledged");
    assert_eq!(IncidentStatus::Resolved.as_str(), "resolved");
    assert_eq!(IncidentStatus::from_str("triggered"), Some(IncidentStatus::Triggered));
    assert_eq!(IncidentStatus::from_str("acknowledged"), Some(IncidentStatus::Acknowledged));
    assert_eq!(IncidentStatus::from_str("resolved"), Some(IncidentStatus::Resolved));
    assert_eq!(IncidentStatus::from_str("Triggered"), None);
    assert_eq!(IncidentStatus::from_str(""), None);
}
