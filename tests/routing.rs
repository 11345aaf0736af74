use campaign_router::dto::CampaignSlug;
use campaign_router::router::{route_step, select_route, RoutingDecision, RoutingError};

fn row(id: &str, grade: i32, handle: i32) -> CampaignSlug {
    CampaignSlug {
        uuid: id.to_string(),
        operator_id: format!("op-{}", id),
        identity: format!("https://wa.me/{}", id),
        grade,
        handle,
    }
}

fn handles(rows: &[CampaignSlug]) -> Vec<i32> {
    rows.iter().map(|r| r.handle).collect()
}

#[test]
fn empty_snapshot_has_no_eligible_operator() {
    let rows: Vec<CampaignSlug> = Vec::new();
    assert_eq!(select_route(&rows), Err(RoutingError::NoEligibleOperator));
}

#[test]
fn lone_operator_of_grade_one_resets_on_every_call() {
    let mut rows = vec![row("a", 1, 0)];
    let first = route_step(&mut rows);
    assert_eq!(first, Ok(RoutingDecision { index: 0, reset: true }));
    assert_eq!(handles(&rows), vec![0]);
    let second = route_step(&mut rows);
    assert_eq!(second, Ok(RoutingDecision { index: 0, reset: true }));
    assert_eq!(handles(&rows), vec![0]);
}

#[test]
fn saturated_snapshot_is_exhausted_and_unchanged() {
    let mut rows = vec![row("a", 1, 1), row("b", 2, 2)];
    assert_eq!(route_step(&mut rows), Err(RoutingError::RoutingExhausted));
    assert_eq!(handles(&rows), vec![1, 2]);
}

#[test]
fn deactivated_partner_leaves_exhausted_snapshot() {
    // Two operators of grade 1; the first call takes one of them, then the
    // other is deactivated and only the used one is loaded.
    let mut rows = vec![row("a", 1, 0), row("b", 1, 0)];
    assert_eq!(route_step(&mut rows), Ok(RoutingDecision { index: 0, reset: false }));
    let mut only_a = vec![row("a", 1, rows[0].handle)];
    assert_eq!(route_step(&mut only_a), Err(RoutingError::RoutingExhausted));
}

#[test]
fn grades_three_and_one_route_a_a_a_b_then_reset() {
    let mut rows = vec![row("a", 3, 0), row("b", 1, 0)];
    let mut picks = Vec::new();
    let mut resets = Vec::new();
    for _ in 0..4 {
        let d = route_step(&mut rows).unwrap();
        picks.push(d.index);
        resets.push(d.reset);
    }
    assert_eq!(picks, vec![0, 0, 0, 1]);
    assert_eq!(resets, vec![false, false, false, true]);
    assert_eq!(handles(&rows), vec![0, 0]);
}

#[test]
fn scenario_b_counters_after_each_call() {
    let mut rows = vec![row("a", 3, 0), row("b", 1, 0)];
    route_step(&mut rows).unwrap();
    assert_eq!(handles(&rows), vec![1, 0]);
    route_step(&mut rows).unwrap();
    assert_eq!(handles(&rows), vec![2, 0]);
    route_step(&mut rows).unwrap();
    assert_eq!(handles(&rows), vec![3, 0]);
    route_step(&mut rows).unwrap();
    assert_eq!(handles(&rows), vec![0, 0]);
}

#[test]
fn equal_grades_go_to_the_least_id_whatever_the_order() {
    let rows = vec![row("b", 2, 0), row("a", 2, 0)];
    assert_eq!(select_route(&rows), Ok(RoutingDecision { index: 1, reset: false }));
    let rows = vec![row("a", 2, 0), row("b", 2, 0)];
    assert_eq!(select_route(&rows), Ok(RoutingDecision { index: 0, reset: false }));
    let rows = vec![row("ab", 1, 0), row("a", 1, 0), row("b", 1, 0)];
    assert_eq!(select_route(&rows), Ok(RoutingDecision { index: 1, reset: false }));
}

#[test]
fn load_order_does_not_change_the_operator() {
    let mut one = vec![row("c", 3, 1), row("a", 3, 0), row("b", 1, 0)];
    let mut two = vec![row("b", 1, 0), row("c", 3, 1), row("a", 3, 0)];
    for _ in 0..12 {
        let d1 = route_step(&mut one).unwrap();
        let d2 = route_step(&mut two).unwrap();
        assert_eq!(one[d1.index].uuid, two[d2.index].uuid);
        assert_eq!(d1.reset, d2.reset);
    }
}

#[test]
fn equal_grades_in_a_sorted_snapshot() {
    let rows = vec![row("a", 1, 1), row("b", 2, 0), row("c", 2, 0)];
    assert_eq!(select_route(&rows), Ok(RoutingDecision { index: 1, reset: false }));
    let rows = vec![row("a", 2, 1), row("b", 2, 0)];
    assert_eq!(select_route(&rows), Ok(RoutingDecision { index: 0, reset: false }));
}

#[test]
fn highest_grade_wins_among_eligible() {
    let rows = vec![row("a", 5, 5), row("b", 2, 0), row("c", 4, 1)];
    assert_eq!(select_route(&rows), Ok(RoutingDecision { index: 2, reset: false }));
}

#[test]
fn reset_is_judged_before_the_increment() {
    // total grade 3, total handle 2: this call completes the cycle
    let rows = vec![row("a", 2, 2), row("b", 1, 0)];
    assert_eq!(select_route(&rows), Ok(RoutingDecision { index: 1, reset: true }));
    // total grade 3, total handle 1: not yet
    let rows = vec![row("a", 2, 1), row("b", 1, 0)];
    assert_eq!(select_route(&rows), Ok(RoutingDecision { index: 0, reset: false }));
}

#[test]
fn full_cycle_picks_each_operator_its_grade_times() {
    let grades = [2, 3, 1, 4];
    let mut rows: Vec<CampaignSlug> =
        grades.iter().enumerate().map(|(i, g)| row(&format!("r{}", i), *g, 0)).collect();
    let total: i32 = grades.iter().sum();
    let mut counts = vec![0; grades.len()];
    for _ in 0..total {
        let d = route_step(&mut rows).unwrap();
        counts[d.index] += 1;
    }
    assert_eq!(counts, vec![2, 3, 1, 4]);
    assert_eq!(handles(&rows), vec![0, 0, 0, 0]);
}

#[test]
fn handles_stay_within_grades_at_every_step() {
    let mut rows = vec![row("a", 3, 0), row("b", 2, 0), row("c", 2, 0)];
    for _ in 0..40 {
        route_step(&mut rows).unwrap();
        for r in &rows {
            assert!(0 <= r.handle && r.handle <= r.grade);
        }
    }
}

#[test]
fn same_snapshot_same_choice() {
    let rows = vec![row("a", 2, 1), row("b", 3, 2), row("c", 3, 0)];
    let first = select_route(&rows);
    for _ in 0..10 {
        assert_eq!(select_route(&rows), first);
    }
    assert_eq!(first, Ok(RoutingDecision { index: 1, reset: false }));
}

#[test]
fn serial_calls_take_successive_slots() {
    let mut rows = vec![row("a", 3, 0), row("b", 2, 0)];
    let total_grade = 5;
    let mut picks = 0;
    for n in 1..=23 {
        route_step(&mut rows).unwrap();
        picks += 1;
        let total_handle: i32 = rows.iter().map(|r| r.handle).sum();
        assert_eq!(total_handle, n % total_grade);
    }
    assert_eq!(picks, 23);
}

#[test]
fn advance_and_reset_touch_only_the_handle() {
    let mut r = row("a", 4, 2);
    r.advance();
    assert_eq!(r.handle, 3);
    assert_eq!(r.grade, 4);
    r.reset();
    assert_eq!(r.handle, 0);
    assert_eq!(r.uuid, "a");
}
