use dvf_pipeline::classify::{
    classify, classify_failure, oversize_pattern, STATUS_OK, STATUS_OVERLOAD, STATUS_QUOTA,
    STATUS_REFUSED,
};
use dvf_pipeline::controller::{
    DropCause, FailureClass, FetchController, Outcome, Reaction, DEPTH_LIMIT,
};
use dvf_pipeline::geometry::{Geometry, GeometryError};

fn square() -> Geometry {
    Geometry {
        kind: "Polygon".to_string(),
        coordinates: vec![vec![vec![0, 0], vec![0, 10], vec![10, 10], vec![10, 0], vec![0, 0]]],
    }
}

const QUOTA: Outcome = Outcome::Failure(FailureClass::Quota);
const OVERSIZED: Outcome = Outcome::Failure(FailureClass::Oversized);
const OTHER: Outcome = Outcome::Failure(FailureClass::Other);

#[test]
fn new_controller_holds_the_seed() {
    let c = FetchController::new(square(), 8);
    assert!(!c.is_finished());
    assert!(!c.succeeded());
    assert_eq!(c.success_count(), 0);
    let unit = c.current().unwrap();
    assert_eq!(unit.geometry.coordinates, square().coordinates);
    assert!(!unit.retried);
    assert_eq!(unit.depth, 0);
}

#[test]
fn quota_failure_is_retried_exactly_once() {
    let mut c = FetchController::new(square(), 8);
    assert_eq!(c.step(QUOTA), Reaction::RetryAfterDelay);
    let unit = c.current().unwrap();
    assert!(unit.retried);
    assert_eq!(unit.depth, 0);
    assert_eq!(unit.geometry.coordinates, square().coordinates);
    assert_eq!(c.step(QUOTA), Reaction::Dropped(DropCause::QuotaExhausted));
    assert!(c.is_finished());
    assert!(!c.succeeded());
}

#[test]
fn retried_unit_can_still_succeed() {
    let mut c = FetchController::new(square(), 8);
    assert_eq!(c.step(QUOTA), Reaction::RetryAfterDelay);
    assert_eq!(c.step(Outcome::Success), Reaction::Stored(0));
    assert!(c.is_finished());
    assert!(c.succeeded());
}

#[test]
fn oversized_square_is_replaced_by_two_rectangles() {
    let mut c = FetchController::new(square(), 8);
    assert_eq!(c.step(OVERSIZED), Reaction::Split);
    let top = c.current().unwrap().clone();
    assert_eq!(
        top.geometry.coordinates,
        vec![vec![vec![0, 5], vec![0, 10], vec![10, 10], vec![10, 5], vec![0, 5]]]
    );
    assert_eq!((top.retried, top.depth), (false, 1));
    assert_eq!(c.step(Outcome::Success), Reaction::Stored(0));
    let next = c.current().unwrap().clone();
    assert_eq!(
        next.geometry.coordinates,
        vec![vec![vec![0, 0], vec![0, 5], vec![10, 5], vec![10, 0], vec![0, 0]]]
    );
    assert_eq!((next.retried, next.depth), (false, 1));
    assert_eq!(c.step(Outcome::Success), Reaction::Stored(1));
    assert!(c.is_finished());
    assert_eq!(c.success_count(), 2);
}

#[test]
fn children_of_a_retried_unit_start_unmarked() {
    let mut c = FetchController::new(square(), 8);
    assert_eq!(c.step(QUOTA), Reaction::RetryAfterDelay);
    assert_eq!(c.step(OVERSIZED), Reaction::Split);
    assert!(!c.current().unwrap().retried);
    assert_eq!(c.step(OTHER), Reaction::Dropped(DropCause::Terminal));
    assert!(!c.current().unwrap().retried);
}

#[test]
fn other_failure_drops_the_unit_at_once() {
    let mut c = FetchController::new(square(), 8);
    assert_eq!(c.step(OTHER), Reaction::Dropped(DropCause::Terminal));
    assert!(c.is_finished());
    assert!(!c.succeeded());
}

#[test]
fn unit_at_the_depth_bound_is_not_split() {
    let mut c = FetchController::new(square(), 0);
    assert_eq!(c.step(OVERSIZED), Reaction::Dropped(DropCause::Unsplittable(GeometryError::TooDeep)));
    assert!(c.is_finished());
    let mut d = FetchController::new(square(), 1);
    assert_eq!(d.step(OVERSIZED), Reaction::Split);
    assert_eq!(d.step(OVERSIZED), Reaction::Dropped(DropCause::Unsplittable(GeometryError::TooDeep)));
    assert_eq!(d.step(OVERSIZED), Reaction::Dropped(DropCause::Unsplittable(GeometryError::TooDeep)));
    assert!(d.is_finished());
}

#[test]
fn unsplittable_geometry_is_dropped() {
    let mut line = square();
    line.kind = "LineString".to_string();
    let mut c = FetchController::new(line, 8);
    assert_eq!(
        c.step(OVERSIZED),
        Reaction::Dropped(DropCause::Unsplittable(GeometryError::NotPolygon))
    );
    assert!(c.is_finished());
    let dot = Geometry { kind: "Polygon".to_string(), coordinates: vec![vec![vec![1, 1], vec![1, 1]]] };
    let mut d = FetchController::new(dot, 8);
    assert_eq!(
        d.step(OVERSIZED),
        Reaction::Dropped(DropCause::Unsplittable(GeometryError::TooFewPoints))
    );
}

#[test]
fn finished_controller_stays_idle() {
    let mut c = FetchController::new(square(), 8);
    assert_eq!(c.step(Outcome::Success), Reaction::Stored(0));
    assert_eq!(c.step(Outcome::Success), Reaction::Idle);
    assert_eq!(c.step(OVERSIZED), Reaction::Idle);
    assert_eq!(c.success_count(), 1);
    assert!(c.current().is_none());
}

fn wide_square() -> Geometry {
    let side = 1 << 30;
    Geometry {
        kind: "Polygon".to_string(),
        coordinates: vec![vec![
            vec![0, 0],
            vec![0, side],
            vec![side, side],
            vec![side, 0],
            vec![0, 0],
        ]],
    }
}

#[test]
fn always_oversized_run_costs_one_query_for_each_unit_of_the_tree() {
    for depth in 0..6u32 {
        let mut c = FetchController::new(wide_square(), depth);
        let mut steps = 0u64;
        while !c.is_finished() {
            c.step(OVERSIZED);
            steps += 1;
            assert!(steps <= (1 << (depth + 1)) - 1);
        }
        assert_eq!(steps, (1 << (depth + 1)) - 1);
        assert!(!c.succeeded());
        assert_eq!(c.success_count(), 0);
    }
}

#[test]
fn always_oversized_run_ends_sooner_where_a_split_fails() {
    let sliver = Geometry {
        kind: "Polygon".to_string(),
        coordinates: vec![vec![vec![0, 0], vec![10, 0], vec![0, 0]]],
    };
    let mut c = FetchController::new(sliver, 6);
    assert_eq!(
        c.step(OVERSIZED),
        Reaction::Dropped(DropCause::Unsplittable(GeometryError::TooFewPoints))
    );
    assert!(c.is_finished());
    assert!(!c.succeeded());
}

#[test]
fn hostile_run_ends_within_its_budget() {
    let mut c = FetchController::new(square(), 2);
    let mut steps = 0u64;
    while !c.is_finished() {
        let unit = c.current().unwrap();
        let outcome = if unit.retried { OVERSIZED } else { QUOTA };
        c.step(outcome);
        steps += 1;
        assert!(steps <= 14);
    }
}

#[test]
fn depth_bound_is_capped() {
    let mut c = FetchController::new(wide_square(), u32::MAX);
    let mut splits = 0;
    let last = loop {
        let reaction = c.step(OVERSIZED);
        if reaction != Reaction::Split {
            break reaction;
        }
        splits += 1;
        assert_eq!(c.current().unwrap().depth, splits);
    };
    assert_eq!(splits, DEPTH_LIMIT);
    assert_eq!(last, Reaction::Dropped(DropCause::Unsplittable(GeometryError::TooDeep)));
}

#[test]
fn one_success_makes_the_feature_succeed() {
    let mut c = FetchController::new(square(), 8);
    c.step(OVERSIZED);
    assert_eq!(c.step(OTHER), Reaction::Dropped(DropCause::Terminal));
    assert_eq!(c.step(Outcome::Success), Reaction::Stored(0));
    assert!(c.is_finished());
    assert!(c.succeeded());
}

#[test]
fn status_decides_the_class() {
    assert_eq!(classify(STATUS_QUOTA, false), FailureClass::Quota);
    assert_eq!(classify(STATUS_OVERLOAD, true), FailureClass::Quota);
    assert_eq!(classify(STATUS_REFUSED, true), FailureClass::Oversized);
    assert_eq!(classify(STATUS_REFUSED, false), FailureClass::Other);
    assert_eq!(classify(500, true), FailureClass::Other);
    assert_eq!(classify(404, false), FailureClass::Other);
    assert_eq!((STATUS_OK, STATUS_QUOTA, STATUS_OVERLOAD, STATUS_REFUSED), (200, 402, 501, 403));
}

#[test]
fn oversize_reason_is_recognised_by_its_text() {
    let pattern = oversize_pattern().unwrap();
    let reason = "{\"message\":\"Surface 1234.5 km2 du GeoJSON trop grande\"}";
    assert_eq!(classify_failure(403, reason, &pattern), FailureClass::Oversized);
    assert_eq!(classify_failure(403, "{\"message\":\"Forbidden\"}", &pattern), FailureClass::Other);
    assert_eq!(classify_failure(403, "", &pattern), FailureClass::Other);
    assert_eq!(classify_failure(400, reason, &pattern), FailureClass::Other);
    assert_eq!(classify_failure(402, "Exceed request quota", &pattern), FailureClass::Quota);
    assert_eq!(classify_failure(501, reason, &pattern), FailureClass::Quota);
}

#[test]
fn oversize_reason_may_span_spaces() {
    let pattern = oversize_pattern().unwrap();
    let reason = "error: {\"message\":\"Surface   9   du  GeoJSON\ttrop   grande\"} (end)";
    assert_eq!(classify_failure(403, reason, &pattern), FailureClass::Oversized);
    let cut = "{\"message\":\"Surface 9 du GeoJSON trop grande\"";
    assert_eq!(classify_failure(403, cut, &pattern), FailureClass::Other);
}
