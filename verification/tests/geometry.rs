use cadmium::angle::{angle, angle_le, Angle};
use cadmium::operation::Operation;
use cadmium::order::stable_order;
use cadmium::point::Point;
use cadmium::ring::{signed_area, Area};
use cadmium::segment::{Arc, Line, Segment};
use cadmium::trace::{find_next_segment_index, find_ring_indices, trace_ring};

fn line(from: &Point, to: &Point) -> Segment {
    Segment::Line(Line::new(from.clone(), to.clone()))
}

#[test]
fn points_are_equal_within_one_unit_and_by_name() {
    let a = Point::new(10, 20, "A");
    assert_eq!(a, Point::new(10, 20, "A"));
    assert_eq!(a, Point::new(11, 19, "A"));
    assert_ne!(a, Point::new(12, 20, "A"));
    assert_ne!(a, Point::new(10, 18, "A"));
    assert_ne!(a, Point::new(10, 20, "B"));
    assert_eq!(Point::new(i32::MIN, i32::MAX, "A"), Point::new(i32::MIN + 1, i32::MAX, "A"));
    assert_ne!(Point::new(i32::MIN, 0, "A"), Point::new(i32::MAX, 0, "A"));
}

#[test]
fn point_new_keeps_what_it_is_given() {
    let p = Point::new(-7, 9, "corner");
    assert_eq!(p.x, -7);
    assert_eq!(p.y, 9);
    assert_eq!(p.id, "corner");
    let q = p.clone();
    assert_eq!(q.x, -7);
    assert_eq!(q.y, 9);
    assert_eq!(q.id, "corner");
}

#[test]
fn reverse_swaps_the_ends() {
    let a = Point::new(0, 0, "A");
    let b = Point::new(5, 0, "B");
    let t = Point::new(2, 2, "T");
    let l = Line::new(a.clone(), b.clone());
    let r = l.reverse();
    assert_eq!(r.start, b);
    assert_eq!(r.end, a);
    let arc = Arc::new(a.clone(), b.clone(), t.clone());
    let back = arc.reverse();
    assert_eq!(back.start, b);
    assert_eq!(back.end, a);
    assert_eq!(back.transit, t);
    let s = Segment::Arc(arc.clone());
    assert_eq!(s.reverse(), Segment::Arc(back));
    assert_eq!(s.reverse().reverse(), s);
    assert_eq!(s.get_start(), a);
    assert_eq!(s.get_end(), b);
}

#[test]
fn segments_of_different_kinds_differ() {
    let a = Point::new(0, 0, "A");
    let b = Point::new(5, 0, "B");
    let t = Point::new(2, 2, "T");
    let l = line(&a, &b);
    let arc = Segment::Arc(Arc::new(a.clone(), b.clone(), t.clone()));
    assert_ne!(l, arc);
    assert!(!l.equals_or_reverse_equals(&arc));
    assert_ne!(arc, Segment::Arc(Arc::new(a.clone(), b.clone(), Point::new(2, -2, "T"))));
}

#[test]
fn continues_and_reverse_equals() {
    let a = Point::new(0, 0, "A");
    let b = Point::new(5, 0, "B");
    let c = Point::new(5, 5, "C");
    let ab = line(&a, &b);
    let bc = line(&b, &c);
    let ba = line(&b, &a);
    assert!(bc.continues(&ab));
    assert!(!ab.continues(&bc));
    assert!(ba.continues(&ab));
    assert!(ab.equals_or_reverse_equals(&ab));
    assert!(ab.equals_or_reverse_equals(&ba));
    assert!(!ab.equals_or_reverse_equals(&bc));
}

#[test]
fn link_joins_neighbours() {
    let a = Point::new(0, 0, "A");
    let b = Point::new(5, 0, "B");
    let c = Point::new(5, 5, "C");
    let open = Segment::link(vec![a.clone(), b.clone(), c.clone()], false);
    assert_eq!(open, vec![line(&a, &b), line(&b, &c)]);
    let closed = Segment::link(vec![a.clone(), b.clone(), c.clone()], true);
    assert_eq!(closed, vec![line(&a, &b), line(&b, &c), line(&c, &a)]);
    assert_eq!(Segment::link(vec![], true), vec![]);
    assert_eq!(Segment::link(vec![], false), vec![]);
    assert_eq!(Segment::link(vec![a.clone()], false), vec![]);
    assert_eq!(Segment::link(vec![a.clone()], true), vec![line(&a, &a)]);
}

#[test]
fn angle_is_exact() {
    let o = Point::new(0, 0, "O");
    let a = Point::new(3, 0, "A");
    let b = Point::new(2, 2, "B");
    assert_eq!(angle(&a, &o, &b), Angle { cos: 6, sin: 6 });
    assert_eq!(angle(&b, &o, &a), Angle { cos: 6, sin: -6 });
    assert_eq!(angle(&a, &o, &a), Angle { cos: 9, sin: 0 });
    assert_eq!(angle(&a, &o, &Point::new(-1, 0, "E")), Angle { cos: -3, sin: 0 });
    assert_eq!(angle(&a, &o, &b).part(), 0);
    assert_eq!(angle(&a, &o, &Point::new(-1, 0, "E")).part(), 1);
    assert_eq!(angle(&b, &o, &a).part(), 2);
    assert_eq!(angle(&a, &o, &a).part(), 3);
    assert!(angle(&a, &o, &a).is_full());
    assert!(!angle(&a, &o, &b).is_full());
}

#[test]
fn angle_at_a_vertex_away_from_the_origin() {
    let b = Point::new(10, 10, "B");
    let a = Point::new(10, 14, "A");
    let c = Point::new(7, 10, "C");
    // from straight up to straight left: a quarter turn
    assert_eq!(angle(&a, &b, &c), Angle { cos: 0, sin: 12 });
}

#[test]
fn angle_of_no_displacement_points_along_x() {
    let o = Point::new(4, 4, "O");
    let up = Point::new(4, 9, "U");
    assert_eq!(angle(&o, &o, &up), Angle { cos: 0, sin: 5 });
    assert_eq!(angle(&up, &o, &o), Angle { cos: 0, sin: -5 });
    assert_eq!(angle(&o, &o, &o), Angle { cos: 1, sin: 0 });
}

#[test]
fn angle_does_not_overflow_at_the_corners_of_the_grid() {
    let low = Point::new(i32::MIN, i32::MIN, "L");
    let high = Point::new(i32::MAX, i32::MAX, "H");
    let side = Point::new(i32::MAX, i32::MIN, "S");
    let span = (i32::MAX as i128) - (i32::MIN as i128);
    assert_eq!(angle(&high, &low, &side), Angle { cos: span * span, sin: -span * span });
    assert!(angle_le(&high, &low, &side, &high));
    assert!(!angle_le(&high, &low, &high, &side));
}

#[test]
fn angle_scales_and_reflects() {
    let b = Point::new(1, 2, "B");
    let a = Point::new(4, 3, "A");
    let c = Point::new(-1, 7, "C");
    let a3 = Point::new(10, 5, "A");
    let c3 = Point::new(-5, 17, "C");
    let t = angle(&a, &b, &c);
    let t3 = angle(&a3, &b, &c3);
    assert_eq!(t3.cos * t.sin, t3.sin * t.cos);
    assert!(t3.cos * t.cos + t3.sin * t.sin > 0);
    let back = angle(&c, &b, &a);
    assert_eq!(back, Angle { cos: t.cos, sin: -t.sin });
}

#[test]
fn angle_le_orders_the_full_turn() {
    let o = Point::new(0, 0, "O");
    let a = Point::new(1, 0, "A");
    let around = [
        Point::new(2, 1, "1"),
        Point::new(0, 1, "2"),
        Point::new(-1, 1, "3"),
        Point::new(-1, 0, "4"),
        Point::new(-3, -1, "5"),
        Point::new(0, -1, "6"),
        Point::new(5, -1, "7"),
        Point::new(7, 0, "8"),
    ];
    for i in 0..around.len() {
        for j in 0..around.len() {
            assert_eq!(angle_le(&a, &o, &around[i], &around[j]), i <= j, "{} {}", i, j);
        }
    }
    assert!(angle_le(&a, &o, &Point::new(1, 1, "P"), &Point::new(2, 2, "Q")));
    assert!(angle_le(&a, &o, &Point::new(2, 2, "Q"), &Point::new(1, 1, "P")));
}

#[test]
fn signed_area_by_the_shoelace_formula() {
    let a = Point::new(0, 0, "A");
    let b = Point::new(4, 0, "B");
    let c = Point::new(4, 3, "C");
    let ring = vec![line(&a, &b), line(&b, &c), line(&c, &a)];
    assert_eq!(signed_area(&ring), Area { doubled: 12 });
    let back = vec![line(&a, &c), line(&c, &b), line(&b, &a)];
    assert_eq!(signed_area(&back), Area { doubled: -12 });
    assert!(signed_area(&ring).is_positive());
    assert!(!signed_area(&back).is_positive());
    assert_eq!(signed_area(&Vec::new()), Area { doubled: 0 });
    assert!(!signed_area(&Vec::new()).is_positive());
    let far = vec![
        line(&Point::new(i32::MIN, i32::MIN, "A"), &Point::new(i32::MAX, i32::MIN, "B")),
        line(&Point::new(i32::MAX, i32::MIN, "B"), &Point::new(i32::MAX, i32::MAX, "C")),
        line(&Point::new(i32::MAX, i32::MAX, "C"), &Point::new(i32::MIN, i32::MIN, "A")),
    ];
    let span = (i32::MAX as i128) - (i32::MIN as i128);
    assert_eq!(signed_area(&far), Area { doubled: span * span });
}

#[test]
fn stable_order_keeps_equal_keys_in_place() {
    assert_eq!(stable_order(&vec![5, -1, 5, 0, -1]), vec![1, 4, 3, 0, 2]);
    assert_eq!(stable_order(&vec![]), Vec::<usize>::new());
    assert_eq!(stable_order(&vec![i128::MAX, i128::MIN]), vec![1, 0]);
    assert_eq!(stable_order(&vec![1, 2, 3]), vec![0, 1, 2]);
    assert_eq!(stable_order(&vec![3, 2, 1]), vec![2, 1, 0]);
}

#[test]
fn next_segment_takes_the_widest_turn() {
    let a = Point::new(0, 0, "A");
    let b = Point::new(4, 0, "B");
    let up = Point::new(4, 4, "U");
    let down = Point::new(4, -4, "D");
    let on = Point::new(8, 0, "E");
    let segments = vec![line(&a, &b), line(&b, &up), line(&b, &on), line(&b, &down), line(&b, &a)];
    // seen from B, A lies at half a turn; going round from A: up comes at
    // three quarters of a turn, straight on at half a turn, down at a quarter
    assert_eq!(find_next_segment_index(&segments, &segments[0], &vec![]), Some(1));
    assert_eq!(find_next_segment_index(&segments, &segments[0], &vec![1]), Some(2));
    assert_eq!(find_next_segment_index(&segments, &segments[0], &vec![1, 2]), Some(3));
    assert_eq!(find_next_segment_index(&segments, &segments[0], &vec![2, 1, 3]), None);
}

#[test]
fn next_segment_takes_the_last_of_equal_turns() {
    let a = Point::new(0, 0, "A");
    let b = Point::new(4, 0, "B");
    let near = Point::new(4, 2, "N");
    let far = Point::new(4, 6, "F");
    let segments = vec![line(&a, &b), line(&b, &near), line(&b, &far)];
    assert_eq!(find_next_segment_index(&segments, &segments[0], &vec![]), Some(2));
    let other = vec![line(&a, &b), line(&b, &far), line(&b, &near)];
    assert_eq!(find_next_segment_index(&other, &other[0], &vec![]), Some(2));
}

#[test]
fn next_segment_never_turns_back() {
    let a = Point::new(0, 0, "A");
    let b = Point::new(4, 0, "B");
    let segments = vec![line(&a, &b), line(&b, &a), line(&a, &b)];
    assert_eq!(find_next_segment_index(&segments, &segments[0], &vec![]), None);
    assert_eq!(find_next_segment_index(&vec![], &segments[0], &vec![]), None);
}

#[test]
fn trace_ring_walks_a_triangle() {
    let a = Point::new(0, 0, "A");
    let b = Point::new(4, 0, "B");
    let c = Point::new(0, 4, "C");
    let all = vec![
        line(&a, &b),
        line(&b, &c),
        line(&c, &a),
        line(&b, &a),
        line(&c, &b),
        line(&a, &c),
    ];
    assert_eq!(trace_ring(&all, &vec![], 0), Some(vec![0, 1, 2]));
    assert_eq!(trace_ring(&all, &vec![], 1), Some(vec![1, 2, 0]));
    assert_eq!(trace_ring(&all, &vec![], 3), Some(vec![3, 5, 4]));
    assert_eq!(trace_ring(&all, &vec![1], 0), None);
    assert_eq!(trace_ring(&all, &vec![], 6), None);
    assert_eq!(find_ring_indices(&all), vec![vec![0, 1, 2], vec![3, 5, 4]]);
}

#[test]
fn trace_ring_gives_up_on_a_loop_that_never_returns() {
    // a stick that leads into a triangle: the walk goes round the triangle
    // and never comes back to where the stick began
    let s = Point::new(-4, 0, "S");
    let a = Point::new(0, 0, "A");
    let b = Point::new(4, 0, "B");
    let c = Point::new(0, 4, "C");
    let all = vec![line(&s, &a), line(&a, &b), line(&b, &c), line(&c, &a)];
    assert_eq!(trace_ring(&all, &vec![], 0), None);
    assert_eq!(trace_ring(&all, &vec![], 1), Some(vec![1, 2, 3]));
    assert_eq!(find_ring_indices(&all), vec![vec![1, 2, 3]]);
}

#[test]
fn trace_ring_closes_on_a_single_segment_loop() {
    let a = Point::new(0, 0, "A");
    let b = Point::new(4, 0, "B");
    // a segment from A to A closes at once, if something may follow it
    let all = vec![line(&a, &a), line(&a, &b)];
    assert_eq!(trace_ring(&all, &vec![], 0), Some(vec![0]));
    assert_eq!(trace_ring(&vec![line(&a, &a)], &vec![], 0), None);
}

#[test]
fn operation_names() {
    assert_eq!(Operation::New.to_string(), "New");
    assert_eq!(Operation::Add.to_string(), "Add");
    assert_eq!(Operation::Remove.to_string(), "Remove");
    assert_ne!(Operation::New, Operation::Add);
}
