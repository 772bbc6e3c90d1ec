use vislumino::circle::{rasterize_circle, Point};

fn xy(points: &[Point]) -> Vec<(i64, i64)> {
    points.iter().map(|p| (p.x, p.y)).collect()
}

fn origin() -> Point {
    Point { x: 0, y: 0 }
}

#[test]
fn circle_of_radius_zero_is_the_center_four_times() {
    let points = rasterize_circle(Point { x: 3, y: -2 }, 0);
    assert_eq!(xy(&points), vec![(3, -2), (3, -2), (3, -2), (3, -2)]);
}

#[test]
fn circle_of_radius_one() {
    let points = rasterize_circle(origin(), 1);
    assert_eq!(
        xy(&points),
        vec![
            (-1, 0), (0, 1), (-1, 0),
            (0, 1), (1, 0), (0, 1),
            (1, 0), (0, -1), (1, 0),
            (0, -1), (-1, 0), (0, -1),
        ]
    );
}

#[test]
fn circle_of_radius_two_steps_past_the_diagonal() {
    let points = rasterize_circle(origin(), 2);
    assert_eq!(
        xy(&points),
        vec![
            (-2, 0), (-2, 1), (-1, 2), (-2, 1), (-1, 2),
            (0, 2), (1, 2), (2, 1), (1, 2), (2, 1),
            (2, 0), (2, -1), (1, -2), (2, -1), (1, -2),
            (0, -2), (-1, -2), (-2, -1), (-1, -2), (-2, -1),
        ]
    );
}

#[test]
fn circle_of_radius_four_has_diagonal_points() {
    let points = rasterize_circle(origin(), 4);
    assert_eq!(
        xy(&points),
        vec![
            (-4, 0), (-4, 1), (-4, 2), (-3, 3), (-2, 4), (-1, 4),
            (0, 4), (1, 4), (2, 4), (3, 3), (4, 2), (4, 1),
            (4, 0), (4, -1), (4, -2), (3, -3), (2, -4), (1, -4),
            (0, -4), (-1, -4), (-2, -4), (-3, -3), (-4, -2), (-4, -1),
        ]
    );
}

#[test]
fn circle_of_radius_five_around_a_center() {
    let points = rasterize_circle(Point { x: 10, y: 20 }, 5);
    let quarter = vec![(-5, 0), (-5, 1), (-5, 2), (-4, 3), (-3, 4), (-4, 3), (-3, 4), (-2, 5), (-1, 5)];
    let expected: Vec<(i64, i64)> = quarter.iter().map(|(x, y)| (x + 10, y + 20)).collect();
    assert_eq!(xy(&points)[..9], expected[..]);
    assert_eq!(points.len(), 36);
}

#[test]
fn circle_starts_at_the_leftmost_point_and_goes_clockwise() {
    for radius in 0..40u32 {
        let r = radius as i64;
        let points = rasterize_circle(origin(), radius);
        assert_eq!(points.len() % 4, 0);
        let quarter = points.len() / 4;
        assert_eq!(xy(&points)[0], (-r, 0));
        assert_eq!(xy(&points)[quarter], (0, r));
        assert_eq!(xy(&points)[2 * quarter], (r, 0));
        assert_eq!(xy(&points)[3 * quarter], (0, -r));
        for p in &points[..quarter] {
            assert!(p.x <= 0 && p.y >= 0);
        }
        for p in &points[quarter..2 * quarter] {
            assert!(p.x >= 0 && p.y >= 0);
        }
        for p in &points[2 * quarter..3 * quarter] {
            assert!(p.x >= 0 && p.y <= 0);
        }
        for p in &points[3 * quarter..] {
            assert!(p.x <= 0 && p.y <= 0);
        }
    }
}

#[test]
fn circle_is_symmetric_under_the_eight_symmetries() {
    for radius in 0..40u32 {
        let points = xy(&rasterize_circle(origin(), radius));
        for &(x, y) in &points {
            for image in [(x, y), (-x, y), (x, -y), (-x, -y), (y, x), (-y, x), (y, -x), (-y, -x)] {
                assert!(points.contains(&image), "radius {}: {:?} misses {:?}", radius, (x, y), image);
            }
        }
    }
}

#[test]
fn circle_points_are_not_inside_the_circle_and_not_far_from_it() {
    for radius in 0..60u32 {
        let r = radius as i64;
        for p in rasterize_circle(origin(), radius) {
            assert!(p.x * p.x + p.y * p.y >= r * r);
            assert!(p.x.abs() <= r && p.y.abs() <= r);
        }
    }
}

#[test]
fn circle_of_largest_radius_that_fits_the_coordinates_is_accepted() {
    let points = rasterize_circle(Point { x: i64::MAX - 3, y: i64::MIN + 3 }, 3);
    assert_eq!(xy(&points)[0], (i64::MAX - 6, i64::MIN + 3));
}

#[test]
fn circle_repeats_points_only_where_octants_meet() {
    for radius in 0..60u32 {
        let points = xy(&rasterize_circle(origin(), radius));
        for (i, p) in points.iter().enumerate() {
            if points[..i].contains(p) {
                let near_diagonal = (p.0.abs() - p.1.abs()).abs() <= 1;
                assert!(p.0 == 0 || p.1 == 0 || near_diagonal, "radius {}: {:?} is repeated", radius, p);
            }
        }
    }
}
