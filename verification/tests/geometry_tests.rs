use dvf_pipeline::geometry::{
    clip_polygon, compute_intersection, exterior_points, inside, min_max_coordinate, polygon_from,
    split_geometry, split_ring, Axis, BoundingBox, Geometry, GeometryError, Point, Side,
};

fn ring(points: &[(i32, i32)]) -> Vec<Point> {
    points.iter().map(|&(x, y)| Point { x, y }).collect()
}

fn polygon(points: &[(i32, i32)]) -> Geometry {
    Geometry {
        kind: "Polygon".to_string(),
        coordinates: vec![points.iter().map(|&(x, y)| vec![x, y]).collect()],
    }
}

fn bounds_of(points: &[Vec<i32>]) -> (i32, i32, i32, i32) {
    let xs: Vec<i32> = points.iter().map(|p| p[0]).collect();
    let ys: Vec<i32> = points.iter().map(|p| p[1]).collect();
    (
        *xs.iter().min().unwrap(),
        *xs.iter().max().unwrap(),
        *ys.iter().min().unwrap(),
        *ys.iter().max().unwrap(),
    )
}

#[test]
fn square_splits_into_two_rectangles_across_y() {
    let square = polygon(&[(0, 0), (0, 10), (10, 10), (10, 0), (0, 0)]);
    let (low, high) = split_geometry(&square).unwrap();
    assert_eq!(low.kind, "Polygon");
    assert_eq!(high.kind, "Polygon");
    assert_eq!(low.coordinates.len(), 1);
    assert_eq!(high.coordinates.len(), 1);
    assert_eq!(
        low.coordinates[0],
        vec![vec![0, 0], vec![0, 5], vec![10, 5], vec![10, 0], vec![0, 0]]
    );
    assert_eq!(
        high.coordinates[0],
        vec![vec![0, 5], vec![0, 10], vec![10, 10], vec![10, 5], vec![0, 5]]
    );
    assert_eq!(bounds_of(&low.coordinates[0]), (0, 10, 0, 5));
    assert_eq!(bounds_of(&high.coordinates[0]), (0, 10, 5, 10));
}

#[test]
fn equal_width_and_height_split_across_y() {
    let (low, high) = split_ring(&ring(&[(2, 3), (2, 9), (8, 9), (8, 3), (2, 3)])).unwrap();
    assert!(low.iter().all(|p| p.y <= 6));
    assert!(high.iter().all(|p| p.y >= 6));
    assert_eq!(low.iter().map(|p| p.x).min(), Some(2));
    assert_eq!(low.iter().map(|p| p.x).max(), Some(8));
}

#[test]
fn wide_box_splits_across_x() {
    let (low, high) = split_ring(&ring(&[(0, 0), (0, 4), (20, 4), (20, 0), (0, 0)])).unwrap();
    assert_eq!(low, ring(&[(0, 0), (0, 4), (10, 4), (10, 0), (0, 0)]));
    assert_eq!(high, ring(&[(10, 4), (20, 4), (20, 0), (10, 0), (10, 4)]));
}

#[test]
fn halves_share_the_bounding_box_of_a_triangle() {
    let triangle = ring(&[(0, 0), (40, 10), (0, 20), (0, 0)]);
    let (low, high) = split_ring(&triangle).unwrap();
    let box_of = |points: &Vec<Point>| min_max_coordinate(points).unwrap();
    assert_eq!(box_of(&triangle), BoundingBox { min_x: 0, max_x: 40, min_y: 0, max_y: 20 });
    let (a, b) = (box_of(&low), box_of(&high));
    assert_eq!((a.min_x, a.max_x), (0, 20));
    assert_eq!((b.min_x, b.max_x), (20, 40));
    assert_eq!(a.min_y.min(b.min_y), 0);
    assert_eq!(a.max_y.max(b.max_y), 20);
    for half in [&low, &high] {
        assert!(half.len() >= 4);
        assert_eq!(half[0], half[half.len() - 1]);
    }
}

#[test]
fn odd_extent_is_cut_at_the_middle_rounded_down() {
    let (low, high) = split_ring(&ring(&[(0, 0), (0, 2), (7, 2), (7, 0), (0, 0)])).unwrap();
    assert_eq!(low.iter().map(|p| p.x).max(), Some(3));
    assert_eq!(high.iter().map(|p| p.x).min(), Some(3));
}

#[test]
fn negative_coordinates_are_cut_at_the_middle_rounded_down() {
    let (low, high) = split_ring(&ring(&[(-7, 0), (-7, 2), (0, 2), (0, 0), (-7, 0)])).unwrap();
    assert_eq!(low.iter().map(|p| p.x).max(), Some(-4));
    assert_eq!(high.iter().map(|p| p.x).min(), Some(-4));
}

#[test]
fn inside_counts_the_line_on_both_sides() {
    let p = Point { x: 5, y: -3 };
    assert!(inside(&p, 5, Axis::X, Side::Low));
    assert!(inside(&p, 5, Axis::X, Side::High));
    assert!(inside(&p, 6, Axis::X, Side::Low));
    assert!(!inside(&p, 6, Axis::X, Side::High));
    assert!(!inside(&p, -4, Axis::Y, Side::Low));
    assert!(inside(&p, -4, Axis::Y, Side::High));
}

#[test]
fn intersection_interpolates_along_the_edge() {
    let s = Point { x: 0, y: 0 };
    let p = Point { x: 10, y: 4 };
    assert_eq!(compute_intersection(s, p, 5, Axis::X), Point { x: 5, y: 2 });
    assert_eq!(compute_intersection(p, s, 5, Axis::X), Point { x: 5, y: 2 });
    assert_eq!(compute_intersection(s, p, 1, Axis::Y), Point { x: 2, y: 1 });
}

#[test]
fn intersection_rounds_towards_the_start_of_the_edge() {
    let s = Point { x: 0, y: 0 };
    let p = Point { x: 3, y: 10 };
    assert_eq!(compute_intersection(s, p, 1, Axis::X), Point { x: 1, y: 3 });
    assert_eq!(compute_intersection(p, s, 1, Axis::X), Point { x: 1, y: 4 });
    let q = Point { x: 3, y: -10 };
    assert_eq!(compute_intersection(s, q, 1, Axis::X), Point { x: 1, y: -3 });
}

#[test]
fn intersection_holds_at_the_ends_of_the_grid() {
    let s = Point { x: i32::MIN, y: i32::MIN };
    let p = Point { x: i32::MAX, y: i32::MAX };
    assert_eq!(compute_intersection(s, p, 0, Axis::X), Point { x: 0, y: 0 });
    assert_eq!(compute_intersection(s, p, i32::MAX, Axis::X), Point { x: i32::MAX, y: i32::MAX });
}

#[test]
fn bounding_box_of_a_ring() {
    let b = min_max_coordinate(&ring(&[(5, 4), (3, 9), (-2, 1), (5, 4)])).unwrap();
    assert_eq!(b, BoundingBox { min_x: -2, max_x: 5, min_y: 1, max_y: 9 });
    let falling = min_max_coordinate(&ring(&[(5, 5), (4, 4), (3, 3)])).unwrap();
    assert_eq!(falling, BoundingBox { min_x: 3, max_x: 5, min_y: 3, max_y: 5 });
}

#[test]
fn bounding_box_of_no_point_is_an_error() {
    assert_eq!(min_max_coordinate(&Vec::new()), Err(GeometryError::EmptyRing));
}

#[test]
fn clip_closes_an_open_result() {
    let square = ring(&[(0, 0), (0, 10), (10, 10), (10, 0), (0, 0)]);
    let top = clip_polygon(&square, 5, Axis::Y, Side::High).unwrap();
    assert_eq!(top, ring(&[(0, 5), (0, 10), (10, 10), (10, 5), (0, 5)]));
}

#[test]
fn clip_that_keeps_nothing_is_an_error() {
    let square = ring(&[(0, 0), (0, 10), (10, 10), (10, 0), (0, 0)]);
    assert_eq!(clip_polygon(&square, 11, Axis::X, Side::High), Err(GeometryError::TooFewPoints));
    assert_eq!(clip_polygon(&Vec::new(), 0, Axis::X, Side::Low), Err(GeometryError::TooFewPoints));
}

#[test]
fn clip_that_keeps_everything_returns_the_ring() {
    let square = ring(&[(0, 0), (0, 10), (10, 10), (10, 0), (0, 0)]);
    assert_eq!(clip_polygon(&square, 10, Axis::X, Side::Low).unwrap(), square);
}

#[test]
fn other_geometry_types_are_rejected() {
    let mut line = polygon(&[(0, 0), (0, 10), (10, 10), (10, 0), (0, 0)]);
    line.kind = "LineString".to_string();
    assert_eq!(split_geometry(&line).err(), Some(GeometryError::NotPolygon));
    line.kind = "MultiPolygon".to_string();
    assert_eq!(split_geometry(&line).err(), Some(GeometryError::NotPolygon));
}

#[test]
fn polygon_without_ring_is_rejected() {
    let empty = Geometry { kind: "Polygon".to_string(), coordinates: Vec::new() };
    assert_eq!(split_geometry(&empty).err(), Some(GeometryError::NoExterior));
}

#[test]
fn empty_ring_is_rejected() {
    let empty = Geometry { kind: "Polygon".to_string(), coordinates: vec![Vec::new()] };
    assert_eq!(split_geometry(&empty).err(), Some(GeometryError::EmptyRing));
    assert_eq!(split_ring(&Vec::new()), Err(GeometryError::EmptyRing));
}

#[test]
fn position_with_three_coordinates_is_rejected() {
    let solid = Geometry {
        kind: "Polygon".to_string(),
        coordinates: vec![vec![vec![0, 0], vec![0, 10, 1], vec![10, 10], vec![0, 0]]],
    };
    assert_eq!(split_geometry(&solid).err(), Some(GeometryError::NotPlanar));
    assert_eq!(exterior_points(&vec![vec![1]]), Err(GeometryError::NotPlanar));
}

#[test]
fn degenerate_ring_has_too_few_points() {
    let dot = polygon(&[(3, 3), (3, 3)]);
    assert_eq!(split_geometry(&dot).err(), Some(GeometryError::TooFewPoints));
    let sliver = polygon(&[(0, 0), (10, 0), (0, 0)]);
    assert_eq!(split_geometry(&sliver).err(), Some(GeometryError::TooFewPoints));
}

#[test]
fn only_the_exterior_ring_is_split() {
    let mut holed = polygon(&[(0, 0), (0, 10), (10, 10), (10, 0), (0, 0)]);
    holed.coordinates.push(vec![vec![4, 4], vec![4, 6], vec![6, 6], vec![6, 4], vec![4, 4]]);
    let (low, high) = split_geometry(&holed).unwrap();
    assert_eq!(low.coordinates.len(), 1);
    assert_eq!(high.coordinates.len(), 1);
}

#[test]
fn points_and_positions_convert_both_ways() {
    let points = ring(&[(1, 2), (3, 4), (5, 6), (1, 2)]);
    let built = polygon_from(&points);
    assert_eq!(built.kind, "Polygon");
    assert_eq!(built.coordinates, vec![vec![vec![1, 2], vec![3, 4], vec![5, 6], vec![1, 2]]]);
    assert_eq!(exterior_points(&built.coordinates[0]), Ok(points));
}

#[test]
fn splitting_is_deterministic() {
    let shape = polygon(&[(0, 0), (3, 17), (29, 11), (13, -5), (0, 0)]);
    let first = split_geometry(&shape).unwrap();
    let second = split_geometry(&shape).unwrap();
    assert_eq!(first.0.coordinates, second.0.coordinates);
    assert_eq!(first.1.coordinates, second.1.coordinates);
}
