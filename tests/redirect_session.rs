use campaign_router::device::DeviceType;
use campaign_router::dto::CampaignSlug;
use campaign_router::geo::IpLocation;
use campaign_router::session::{
    failure_response, RouteAction, RouteEvent, RoutePhase, RouteSession,
};
use campaign_router::router::RoutingError;

fn row(id: &str, grade: i32, handle: i32) -> CampaignSlug {
    CampaignSlug {
        uuid: id.to_string(),
        operator_id: format!("op-{}", id),
        identity: format!("https://wa.me/{}", id),
        grade,
        handle,
    }
}

fn located() -> IpLocation {
    IpLocation {
        lat: Some("-6.2".to_string()),
        lon: Some("106.8".to_string()),
        country: Some("Indonesia".to_string()),
        region_name: Some("Jakarta".to_string()),
        city: Some("Jakarta".to_string()),
        status: "success".to_string(),
    }
}

fn started() -> RouteSession {
    let (session, action) = RouteSession::start(
        "promo".to_string(),
        "114.10.153.22".to_string(),
        Some("Mozilla/5.0 (iPhone; CPU iPhone OS 14_0)"),
    );
    match action {
        RouteAction::LookupLocation(url) => {
            assert_eq!(url, "http://ip-api.com/json/114.10.153.22")
        }
        _ => panic!("expected a location lookup first"),
    }
    assert_eq!(session.phase, RoutePhase::AwaitingLocation);
    assert_eq!(session.device, DeviceType::Mobile);
    session
}

#[test]
fn visit_is_routed_recorded_and_redirected() {
    let mut s = started();
    match s.on_event(RouteEvent::LocationFetched(Some(located()))) {
        RouteAction::LoadAssignments(slug) => assert_eq!(slug, "promo"),
        _ => panic!("expected the assignments to be loaded"),
    }
    let rows = vec![row("a", 3, 0), row("b", 1, 0)];
    match s.on_event(RouteEvent::AssignmentsLoaded("camp-1".to_string(), rows)) {
        RouteAction::ApplyOutcome(o) => {
            assert_eq!(o.campaign_id, "camp-1");
            assert_eq!(o.assignment_id, "a");
            assert!(!o.reset);
            assert_eq!(o.visit.campaign_id, "camp-1");
            assert_eq!(o.visit.id.len(), 36);
            assert_eq!(o.visit.operator_id, "op-a");
            assert_eq!(o.visit.ip_address, "114.10.153.22");
            assert_eq!(o.visit.device, "Mobile");
            assert_eq!(o.visit.location, "Jakarta, Jakarta, Indonesia");
            assert_eq!(o.visit.maps, "https://www.google.com/maps?q=-6.2,106.8");
        }
        _ => panic!("expected an outcome to apply"),
    }
    match s.on_event(RouteEvent::Committed) {
        RouteAction::Redirect(to) => assert_eq!(to, "https://wa.me/a"),
        _ => panic!("expected a redirect"),
    }
    assert_eq!(s.phase, RoutePhase::Finished);
}

#[test]
fn failed_lookup_still_records_and_redirects() {
    let mut s = started();
    assert!(matches!(
        s.on_event(RouteEvent::LocationFetched(None)),
        RouteAction::LoadAssignments(_)
    ));
    match s.on_event(RouteEvent::AssignmentsLoaded("c".to_string(), vec![row("x", 1, 0)])) {
        RouteAction::ApplyOutcome(o) => {
            assert_eq!(o.visit.location, "");
            assert_eq!(o.visit.maps, "");
            assert!(o.reset);
        }
        _ => panic!("expected an outcome to apply"),
    }
    assert!(matches!(s.on_event(RouteEvent::Committed), RouteAction::Redirect(_)));
}

#[test]
fn no_assignment_is_not_found() {
    let mut s = started();
    s.on_event(RouteEvent::LocationFetched(None));
    match s.on_event(RouteEvent::AssignmentsLoaded(String::new(), Vec::new())) {
        RouteAction::Fail(status, body) => {
            assert_eq!(status, 404);
            assert!(!body.success);
            assert_eq!(body.message, "No operator is available for this link");
        }
        _ => panic!("expected a failure"),
    }
    assert_eq!(s.phase, RoutePhase::Finished);
}

#[test]
fn exhausted_assignments_are_unavailable() {
    let mut s = started();
    s.on_event(RouteEvent::LocationFetched(None));
    match s.on_event(RouteEvent::AssignmentsLoaded("c".to_string(), vec![row("x", 1, 1)])) {
        RouteAction::Fail(status, _) => assert_eq!(status, 503),
        _ => panic!("expected a failure"),
    }
}

#[test]
fn store_failure_while_loading_is_internal_error() {
    let mut s = started();
    s.on_event(RouteEvent::LocationFetched(None));
    match s.on_event(RouteEvent::StoreFailed) {
        RouteAction::Fail(status, body) => {
            assert_eq!(status, 500);
            assert_eq!(body.message, "Failed to record the visit");
        }
        _ => panic!("expected a failure"),
    }
}

#[test]
fn failed_commit_gives_no_redirect() {
    let mut s = started();
    s.on_event(RouteEvent::LocationFetched(None));
    s.on_event(RouteEvent::AssignmentsLoaded("c".to_string(), vec![row("x", 2, 0)]));
    match s.on_event(RouteEvent::StoreFailed) {
        RouteAction::Fail(status, _) => assert_eq!(status, 500),
        _ => panic!("expected a failure"),
    }
}

#[test]
fn event_out_of_turn_ends_the_request() {
    let mut s = started();
    assert!(matches!(s.on_event(RouteEvent::Committed), RouteAction::Fail(500, _)));
    assert_eq!(s.phase, RoutePhase::Finished);
    assert!(matches!(
        s.on_event(RouteEvent::LocationFetched(None)),
        RouteAction::Fail(500, _)
    ));
}

#[test]
fn failure_statuses() {
    assert_eq!(failure_response(RoutingError::NoEligibleOperator).0, 404);
    assert_eq!(failure_response(RoutingError::RoutingExhausted).0, 503);
    assert_eq!(failure_response(RoutingError::StorageError).0, 500);
    assert_eq!(
        failure_response(RoutingError::RoutingExhausted).1.message,
        "Routing is temporarily unavailable"
    );
}
