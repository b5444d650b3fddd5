use cadmium::angle::Angle;
use cadmium::circle::Circle;
use cadmium::error::SketchError;
use cadmium::point::Point;
use cadmium::segment::{Arc, Line, Segment};

fn arc(start: (i32, i32), end: (i32, i32), transit: (i32, i32)) -> Arc {
    Arc::new(
        Point::new(start.0, start.1, "S"),
        Point::new(end.0, end.1, "E"),
        Point::new(transit.0, transit.1, "T"),
    )
}

fn fitted(a: &Arc) -> (i32, i32, i64) {
    let Circle { center, radius } = a.to_circle().unwrap();
    assert_eq!(center.id, "center_point");
    (center.x, center.y, radius)
}

#[test]
fn circle_through_three_points() {
    // the circle about (3, 4) with the radius 5
    assert_eq!(fitted(&arc((0, 0), (6, 8), (8, 4))), (3, 4, 5));
    assert_eq!(fitted(&arc((6, 8), (0, 0), (8, 4))), (3, 4, 5));
    assert_eq!(fitted(&arc((8, 4), (3, 9), (-2, 4))), (3, 4, 5));
    // the same circle, moved far from the origin
    assert_eq!(
        fitted(&arc((1_000_000, -2_000_000), (1_000_006, -1_999_992), (1_000_008, -1_999_996))),
        (1_000_003, -1_999_996, 5)
    );
}

#[test]
fn circle_centre_is_rounded_to_the_grid() {
    // the centre lies at (0.5, 0.5): halves are rounded away from nought
    assert_eq!(fitted(&arc((0, 0), (1, 1), (1, 0))), (1, 1, 1));
    assert_eq!(fitted(&arc((0, 0), (-1, -1), (-1, 0))), (-1, -1, 1));
    // the centre lies at (1.5, 0.5), the radius is the root of 2.5
    assert_eq!(fitted(&arc((0, 0), (3, 0), (1, 2))), (2, 1, 2));
    // the centre lies at (0, 1/3)
    assert_eq!(fitted(&arc((-1, 0), (1, 0), (0, 1))), (0, 0, 1));
    assert_eq!(fitted(&arc((-3, 0), (3, 0), (0, 1))), (0, -4, 5));
}

#[test]
fn circle_of_points_on_a_line_is_degenerate() {
    assert_eq!(arc((0, 0), (4, 2), (2, 1)).to_circle().unwrap_err(), SketchError::DegenerateArc);
    assert_eq!(arc((0, 0), (0, 0), (2, 1)).to_circle().unwrap_err(), SketchError::DegenerateArc);
    assert_eq!(arc((0, 0), (4, 2), (0, 0)).to_circle().unwrap_err(), SketchError::DegenerateArc);
    assert_eq!(arc((5, 5), (5, 5), (5, 5)).to_circle().unwrap_err(), SketchError::DegenerateArc);
    assert_eq!(arc((0, 0), (4, 2), (2, 1)).angle(), Err(SketchError::DegenerateArc));
    assert_eq!(
        Segment::Arc(arc((0, 0), (4, 2), (2, 1))).angle(),
        Err(SketchError::DegenerateArc)
    );
}

#[test]
fn circle_with_its_centre_off_the_grid_is_degenerate() {
    // nearly flat: the centre lies at about -5 * 10^17
    let flat = arc((-1_000_000_000, 0), (1_000_000_000, 0), (0, 1));
    assert_eq!(flat.to_circle().unwrap_err(), SketchError::DegenerateArc);
    assert_eq!(flat.check(), Ok(()));
    // the direction in which it sets out is known all the same
    let a = flat.angle().unwrap();
    assert!(a.cos > 0 && a.sin > 0);
    let wide = arc((i32::MIN, i32::MIN), (i32::MAX, i32::MAX), (i32::MIN, i32::MAX));
    assert_eq!(fitted(&wide), (0, 0, 3_037_000_499));
    let wider = arc((i32::MIN, i32::MIN), (i32::MAX, i32::MAX - 1), (i32::MIN + 1, i32::MAX));
    assert!(wider.to_circle().is_ok());
}

#[test]
fn arcs_set_out_at_a_right_angle_to_the_radius() {
    // on the unit circle about the origin, from (-1, 0)
    assert_eq!(arc((-1, 0), (1, 0), (0, 1)).angle(), Ok(Angle { cos: 0, sin: 4 }));
    assert_eq!(arc((-1, 0), (1, 0), (0, -1)).angle(), Ok(Angle { cos: 0, sin: -4 }));
    // the transit point straight across: clockwise about the centre
    assert_eq!(arc((-1, 0), (0, -1), (1, 0)).angle(), Ok(Angle { cos: 0, sin: 4 }));
    assert_eq!(arc((-1, 0), (0, 1), (1, 0)).angle(), Ok(Angle { cos: 0, sin: 4 }));
    assert_eq!(arc((0, 1), (-1, 0), (1, 0)).angle(), Ok(Angle { cos: 4, sin: 0 }));
    assert_eq!(arc((0, 1), (1, 0), (-1, 0)).angle(), Ok(Angle { cos: -4, sin: 0 }));
    // about (3, 4) with the radius 5, from the origin towards (8, 4)
    let a = arc((0, 0), (6, 8), (8, 4)).angle().unwrap();
    assert_eq!(a.cos * 3 + a.sin * 4, 0);
    assert!(a.cos > 0 && a.sin < 0);
    let b = arc((0, 0), (6, 8), (-2, 4)).angle().unwrap();
    assert_eq!(b.cos * 3 + b.sin * 4, 0);
    assert!(b.cos < 0 && b.sin > 0);
}

#[test]
fn arc_angle_does_not_overflow_at_the_corners_of_the_grid() {
    let wide = arc((i32::MIN, i32::MIN), (i32::MAX, i32::MAX), (i32::MIN, i32::MAX));
    let a = wide.angle().unwrap();
    // the centre lies on the diagonal: the arc sets out along the other diagonal
    let span = (i32::MAX as i128) - (i32::MIN as i128);
    assert_eq!(a, Angle { cos: -span * span * span, sin: span * span * span });
    let back = arc((i32::MAX, i32::MAX), (i32::MIN, i32::MIN), (i32::MIN, i32::MAX));
    let b = back.angle().unwrap();
    assert_eq!(b, Angle { cos: -span * span * span, sin: span * span * span });
}

#[test]
fn lines_set_out_towards_their_end() {
    let l = Line::new(Point::new(1, 1, "A"), Point::new(4, -3, "B"));
    assert_eq!(l.angle(), Angle { cos: 3, sin: -4 });
    assert_eq!(l.reverse().angle(), Angle { cos: -3, sin: 4 });
    let still = Line::new(Point::new(1, 1, "A"), Point::new(1, 1, "B"));
    assert_eq!(still.angle(), Angle { cos: 1, sin: 0 });
    assert_eq!(Segment::Line(l).angle(), Ok(Angle { cos: 3, sin: -4 }));
    let far = Line::new(Point::new(i32::MIN, i32::MAX, "A"), Point::new(i32::MAX, i32::MIN, "B"));
    assert_eq!(far.angle(), Angle { cos: 4_294_967_295, sin: -4_294_967_295 });
}

#[test]
fn radius_is_rounded_down() {
    // about (0, 0) through (3, 3): the root of 18
    assert_eq!(fitted(&arc((3, 3), (-3, 3), (3, -3))), (0, 0, 4));
    // about (0, 0) through (100000, 0)
    assert_eq!(fitted(&arc((100_000, 0), (0, 100_000), (-100_000, 0))), (0, 0, 100_000));
    // about (0, 0) through (7, 24): the root of 625
    assert_eq!(fitted(&arc((7, 24), (-7, 24), (24, -7))), (0, 0, 25));
    assert_eq!(fitted(&arc((7, 24), (-7, 24), (25, 0))), (0, 0, 25));
}
