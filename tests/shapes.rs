use shape_collide::circle::Circle;
use shape_collide::collisions::{Collidable, Contains, Points, PointsIter};
use shape_collide::error::{ShapeError, ShapeKind};
use shape_collide::rect::Rect;
use shape_collide::report::{adjacent_collisions, collision_report, parse_valid_shapes};
use shape_collide::shape::Shape;

fn all_points<T: Points>(s: &T) -> Vec<(i64, i64)> {
    let mut it = s.get_points_iter();
    let mut out = Vec::new();
    while let Some(p) = it.next() {
        out.push(p);
    }
    out
}

#[test]
fn rect_line_yields_four_corners() {
    let s = Shape::from_str("rect 1 2 3 4").unwrap();
    assert_eq!(s, Shape::Rect(Rect { x: 1, y: 2, height: 3, width: 4 }));
    assert_eq!(all_points(&s), vec![(1, 2), (1, 5), (5, 2), (5, 5)]);
}

#[test]
fn rect_corners_beyond_i32() {
    let r = Rect { x: i32::MAX, y: i32::MIN, height: -1, width: i32::MAX };
    let big = i32::MAX as i64 * 2;
    assert_eq!(
        all_points(&r),
        vec![
            (i32::MAX as i64, i32::MIN as i64),
            (i32::MAX as i64, i32::MIN as i64 - 1),
            (big, i32::MIN as i64),
            (big, i32::MIN as i64 - 1),
        ]
    );
}

#[test]
fn circle_line_yields_center() {
    let s = Shape::from_str("circle -3 7 2").unwrap();
    assert_eq!(s, Shape::Circle(Circle { x: -3, y: 7, radius: 2 }));
    assert_eq!(all_points(&s), vec![(-3, 7)]);
}

#[test]
fn circle_contains_own_center() {
    for radius in [0, 1, 5, -4, i32::MAX, i32::MIN] {
        let c = Circle { x: 12, y: -40, radius };
        assert!(c.contains_point((12, -40)));
        assert!(c.collide(&c));
    }
}

#[test]
fn circle_boundary_is_inclusive() {
    let c = Circle { x: 0, y: 0, radius: 5 };
    assert!(c.contains_point((3, 4)));
    assert!(c.contains_point((0, -5)));
    assert!(!c.contains_point((4, 4)));
    assert!(!c.contains_point((0, 6)));
    // A negative radius bounds the same disc as its absolute value.
    let n = Circle { x: 0, y: 0, radius: -5 };
    assert!(n.contains_point((3, 4)));
    assert!(!n.contains_point((4, 4)));
}

#[test]
fn circle_with_extreme_coordinates() {
    let c = Circle { x: 0, y: 0, radius: i32::MIN };
    assert!(c.contains_point((1i64 << 31, 0)));
    assert!(!c.contains_point(((1i64 << 31) + 1, 0)));
    assert!(!c.contains_point((i64::MAX, i64::MIN)));
    let far = Circle { x: i32::MIN, y: i32::MAX, radius: i32::MAX };
    assert!(!far.contains_point((i64::MAX, i64::MAX)));
}

#[test]
fn rect_boundary_is_closed_on_all_sides() {
    let r = Rect { x: 0, y: 0, height: 10, width: 20 };
    // corners and edges
    assert!(r.contains_point((0, 0)));
    assert!(r.contains_point((20, 10)));
    assert!(r.contains_point((0, 5)));
    assert!(r.contains_point((20, 5)));
    assert!(r.contains_point((7, 0)));
    assert!(r.contains_point((7, 10)));
    assert!(r.contains_point((7, 5)));
    // just outside each side
    assert!(!r.contains_point((-1, 5)));
    assert!(!r.contains_point((21, 5)));
    assert!(!r.contains_point((7, -1)));
    assert!(!r.contains_point((7, 11)));
}

#[test]
fn rect_with_negative_extent_contains_nothing() {
    let r = Rect { x: 0, y: 0, height: -2, width: 3 };
    assert!(!r.contains_point((0, 0)));
    assert!(!r.contains_point((1, -1)));
}

#[test]
fn rect_contains_own_corners() {
    for r in [
        Rect { x: 0, y: 0, height: 10, width: 10 },
        Rect { x: -5, y: 3, height: 0, width: 7 },
        Rect { x: 4, y: 4, height: 0, width: 0 },
    ] {
        for p in all_points(&r) {
            assert!(r.contains_point(p));
        }
        assert!(r.collide(&r));
    }
}

#[test]
fn adjacent_pairs_scenario() {
    let lines = ["rect 0 0 10 10", "circle 5 5 1", "rect 20 20 5 5"];
    assert_eq!(collision_report(&lines), vec![true, false]);
}

#[test]
fn collision_is_not_symmetric() {
    let r = Shape::Rect(Rect { x: 0, y: 0, height: 10, width: 10 });
    let c = Shape::Circle(Circle { x: 5, y: 5, radius: 1 });
    assert!(r.collide(&c));
    assert!(!c.collide(&r));
}

#[test]
fn malformed_line_is_dropped() {
    let lines = ["rect 0 0 10 10", "triangle 1 2 3", "circle 5 5 1"];
    let shapes = parse_valid_shapes(&lines);
    assert_eq!(
        shapes,
        vec![
            Shape::Rect(Rect { x: 0, y: 0, height: 10, width: 10 }),
            Shape::Circle(Circle { x: 5, y: 5, radius: 1 }),
        ]
    );
    assert_eq!(collision_report(&lines), vec![true]);
}

#[test]
fn report_on_too_few_shapes_is_empty() {
    let none: [&str; 0] = [];
    assert_eq!(collision_report(&none), Vec::<bool>::new());
    assert_eq!(collision_report(&["circle 1 1 1"]), Vec::<bool>::new());
    assert_eq!(collision_report(&["nothing here", "rect 1 1"]), Vec::<bool>::new());
    assert_eq!(adjacent_collisions(&[]), Vec::<bool>::new());
}

#[test]
fn collides_with_any_of_several() {
    let r = Rect { x: 0, y: 0, height: 4, width: 4 };
    let far = Circle { x: 50, y: 50, radius: 3 };
    let near = Circle { x: 2, y: 4, radius: 100 };
    let no_circles: [Circle; 0] = [];
    assert!(!r.collides(&no_circles));
    assert!(!r.collides(&[far]));
    assert!(r.collides(&[far, near]));
}

#[test]
fn unknown_kind_is_an_error() {
    assert_eq!(Shape::from_str("triangle 1 2 3"), Err(ShapeError::UnknownShapeKind));
    assert_eq!(Shape::from_str(""), Err(ShapeError::UnknownShapeKind));
    assert_eq!(Shape::from_str("Rect 1 2 3 4"), Err(ShapeError::UnknownShapeKind));
    assert_eq!(Shape::from_str(" rect 1 2 3 4"), Err(ShapeError::UnknownShapeKind));
}

#[test]
fn wrong_field_count_is_malformed() {
    let bad_rect = Err(ShapeError::MalformedShape(ShapeKind::Rect));
    let bad_circle = Err(ShapeError::MalformedShape(ShapeKind::Circle));
    assert_eq!(Shape::from_str("rect"), bad_rect);
    assert_eq!(Shape::from_str("rect 1 2 3"), bad_rect);
    assert_eq!(Shape::from_str("rect 1 2 3 4 5"), bad_rect);
    assert_eq!(Shape::from_str("rect 1 2 3 4 "), bad_rect);
    assert_eq!(Shape::from_str("circle 1 2"), bad_circle);
    assert_eq!(Shape::from_str("circle 1 2 3 4"), bad_circle);
    assert_eq!(Rect::from_str("1 2 3"), Err(ShapeError::MalformedShape(ShapeKind::Rect)));
    assert_eq!(Circle::from_str(""), Err(ShapeError::MalformedShape(ShapeKind::Circle)));
}

#[test]
fn bad_number_is_an_error() {
    assert_eq!(Shape::from_str("rect a 0 1 1"), Err(ShapeError::InvalidNumber));
    assert_eq!(Shape::from_str("rect 0  0 1"), Err(ShapeError::InvalidNumber));
    assert_eq!(Shape::from_str("circle 1 2 1.5"), Err(ShapeError::InvalidNumber));
    assert_eq!(Shape::from_str("circle 1 2 2147483648"), Err(ShapeError::InvalidNumber));
    assert_eq!(Shape::from_str("circle - 2 3"), Err(ShapeError::InvalidNumber));
}

#[test]
fn numbers_take_a_sign() {
    assert_eq!(
        Shape::from_str("circle +4 -2147483648 2147483647"),
        Ok(Shape::Circle(Circle { x: 4, y: i32::MIN, radius: i32::MAX }))
    );
    assert_eq!(Rect::from_str("0 -0 007 12"), Ok(Rect { x: 0, y: 0, height: 7, width: 12 }));
}

#[test]
fn default_rect() {
    assert_eq!(Rect::default(), Rect { x: 0, y: 0, height: 10, width: 30 });
}

#[test]
fn points_iter_hands_out_in_order() {
    let mut it = PointsIter::from(vec![(1, 2), (3, 4)]);
    assert_eq!(it.next(), Some((1, 2)));
    assert_eq!(it.next(), Some((3, 4)));
    assert_eq!(it.next(), None);
    assert_eq!(it.next(), None);
}

#[test]
fn lines_parse_through_from_str() {
    assert_eq!("circle 5 5 1".parse::<Shape>(), Ok(Shape::Circle(Circle { x: 5, y: 5, radius: 1 })));
    assert_eq!("square 1 1 1".parse::<Shape>(), Err(ShapeError::UnknownShapeKind));
    let kept: Vec<Shape> =
        ["rect 0 0 1 1", "circle 1", "circle 0 0 0"].iter().filter_map(|l| l.parse().ok()).collect();
    assert_eq!(kept.len(), 2);
}
