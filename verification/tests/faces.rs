use cadmium::face::{assemble_faces, Face};
use cadmium::point::{Point, UNITS_PER_ONE};
use cadmium::ring::{as_polygon, signed_area, Ring};
use cadmium::segment::{Arc, Line, Segment};
use cadmium::sketch::Sketch;

fn point(x: i32, y: i32, id: &str) -> Point {
    Point::new(x * UNITS_PER_ONE, y * UNITS_PER_ONE, id)
}

fn loop_of(corners: &[(i32, i32, &str)]) -> Vec<Segment> {
    let points: Vec<Point> = corners.iter().map(|c| point(c.0, c.1, c.2)).collect();
    Segment::link(points, true)
}

fn starts(ring: &Ring) -> Vec<String> {
    ring.iter().map(|s| s.get_start().id).collect()
}

/// The labels of a ring's corners, turned so that the smallest comes first.
fn cycle(ring: &Ring) -> Vec<String> {
    let ids = starts(ring);
    let first = (0..ids.len()).min_by_key(|k| ids[*k].clone()).unwrap();
    let mut turned = ids[first..].to_vec();
    turned.extend_from_slice(&ids[..first]);
    turned
}

fn names(list: &[&str]) -> Vec<String> {
    list.iter().map(|s| s.to_string()).collect()
}

fn sketch_of(loops: Vec<Vec<Segment>>) -> Sketch {
    let mut sketch = Sketch::new();
    for l in loops {
        sketch.add_segments(l);
    }
    sketch
}

fn unit() -> i128 {
    UNITS_PER_ONE as i128 * UNITS_PER_ONE as i128
}

#[test]
fn triangle_has_two_rings_of_opposite_area() {
    let sketch = sketch_of(vec![loop_of(&[(-1, 0, "A"), (1, 0, "B"), (0, 1, "C")])]);
    let rings = sketch.find_rings();
    assert_eq!(rings.len(), 2);
    assert_eq!(signed_area(&rings[0]).doubled, -2 * unit());
    assert_eq!(signed_area(&rings[1]).doubled, 2 * unit());
    assert_eq!(starts(&rings[1]), names(&["A", "B", "C"]));
    assert_eq!(starts(&rings[0]), names(&["B", "A", "C"]));
}

#[test]
fn triangle_is_one_face_without_holes() {
    let sketch = sketch_of(vec![loop_of(&[(-1, 0, "A"), (1, 0, "B"), (0, 1, "C")])]);
    let faces = sketch.find_faces();
    assert_eq!(faces.len(), 1);
    assert!(faces[0].interiors.is_empty());
    assert!(signed_area(&faces[0].exterior).is_positive());
    assert_eq!(starts(&faces[0].exterior), names(&["A", "B", "C"]));
}

#[test]
fn clockwise_triangle_gives_the_same_face() {
    let sketch = sketch_of(vec![loop_of(&[(0, 1, "C"), (1, 0, "B"), (-1, 0, "A")])]);
    let rings = sketch.find_rings();
    assert_eq!(rings.len(), 2);
    assert_eq!(starts(&rings[0]), names(&["C", "B", "A"]));
    let faces = sketch.find_faces();
    assert_eq!(faces.len(), 1);
    assert_eq!(signed_area(&faces[0].exterior).doubled, 2 * unit());
    assert_eq!(cycle(&faces[0].exterior), names(&["A", "B", "C"]));
}

#[test]
fn disjoint_triangles_are_two_faces() {
    let sketch = sketch_of(vec![
        loop_of(&[(0, 0, "A"), (1, 0, "B"), (1, 1, "C")]),
        loop_of(&[(-3, 0, "D"), (-1, 0, "E"), (-1, 2, "F")]),
    ]);
    assert_eq!(sketch.find_rings().len(), 4);
    let faces = sketch.find_faces();
    assert_eq!(faces.len(), 2);
    assert!(faces[0].interiors.is_empty());
    assert!(faces[1].interiors.is_empty());
    assert_eq!(cycle(&faces[0].exterior), names(&["A", "B", "C"]));
    assert_eq!(cycle(&faces[1].exterior), names(&["D", "E", "F"]));
}

#[test]
fn square_in_square_is_a_hole() {
    let sketch = sketch_of(vec![
        loop_of(&[(0, 0, "A"), (1, 0, "B"), (1, 1, "C"), (0, 1, "D")]),
        loop_of(&[(-1, -1, "E"), (2, -1, "F"), (2, 2, "G"), (-1, 2, "H")]),
    ]);
    let rings = sketch.find_rings();
    assert_eq!(rings.len(), 4);
    let areas: Vec<i128> = rings.iter().map(|r| signed_area(r).doubled).collect();
    assert_eq!(areas, vec![-18 * unit(), -2 * unit(), 2 * unit(), 18 * unit()]);

    let faces = sketch.find_faces();
    assert_eq!(faces.len(), 2);
    assert_eq!(cycle(&faces[0].exterior), names(&["A", "B", "C", "D"]));
    assert!(faces[0].interiors.is_empty());
    assert_eq!(cycle(&faces[1].exterior), names(&["E", "F", "G", "H"]));
    assert_eq!(faces[1].interiors.len(), 1);
    assert_eq!(cycle(&faces[1].interiors[0]), names(&["A", "B", "C", "D"]));
}

#[test]
fn triple_squares_nest_in_their_parents() {
    let sketch = sketch_of(vec![
        loop_of(&[(0, 0, "A"), (1, 0, "B"), (1, 1, "C"), (0, 1, "D")]),
        loop_of(&[(-1, -1, "E"), (2, -1, "F"), (2, 2, "G"), (-1, 2, "H")]),
        loop_of(&[(-2, -2, "I"), (3, -2, "J"), (3, 3, "K"), (-2, 3, "L")]),
    ]);
    assert_eq!(sketch.find_rings().len(), 6);
    let faces = sketch.find_faces();
    assert_eq!(faces.len(), 3);
    assert!(faces[0].interiors.is_empty());
    assert_eq!(cycle(&faces[1].exterior), names(&["E", "F", "G", "H"]));
    assert_eq!(faces[1].interiors.len(), 1);
    assert_eq!(cycle(&faces[1].interiors[0]), names(&["A", "B", "C", "D"]));
    assert_eq!(cycle(&faces[2].exterior), names(&["I", "J", "K", "L"]));
    assert_eq!(faces[2].interiors.len(), 1);
    assert_eq!(cycle(&faces[2].interiors[0]), names(&["E", "F", "G", "H"]));
}

#[test]
fn two_holes_in_one_face_keep_their_order() {
    let sketch = sketch_of(vec![
        loop_of(&[(1, 1, "A"), (3, 1, "B"), (3, 3, "C"), (1, 3, "D")]),
        loop_of(&[(5, 5, "E"), (6, 5, "F"), (6, 6, "G"), (5, 6, "H")]),
        loop_of(&[(0, 0, "I"), (9, 0, "J"), (9, 9, "K"), (0, 9, "L")]),
    ]);
    let faces = sketch.find_faces();
    assert_eq!(faces.len(), 3);
    assert_eq!(cycle(&faces[0].exterior), names(&["E", "F", "G", "H"]));
    assert_eq!(cycle(&faces[1].exterior), names(&["A", "B", "C", "D"]));
    assert_eq!(faces[2].interiors.len(), 2);
    assert_eq!(cycle(&faces[2].interiors[0]), names(&["E", "F", "G", "H"]));
    assert_eq!(cycle(&faces[2].interiors[1]), names(&["A", "B", "C", "D"]));
}

#[test]
fn adjacent_triangles_share_an_edge() {
    let a = point(-1, 0, "A");
    let b = point(1, 0, "B");
    let c = point(0, 1, "C");
    let d = point(0, -1, "D");
    let sketch = sketch_of(vec![vec![
        Segment::Line(Line::new(a.clone(), b.clone())),
        Segment::Line(Line::new(b.clone(), c.clone())),
        Segment::Line(Line::new(c.clone(), a.clone())),
        Segment::Line(Line::new(a.clone(), d.clone())),
        Segment::Line(Line::new(b.clone(), d.clone())),
    ]]);
    let rings = sketch.find_rings();
    assert_eq!(rings.len(), 3);
    let areas: Vec<i128> = rings.iter().map(|r| signed_area(r).doubled).collect();
    assert_eq!(areas, vec![-4 * unit(), 2 * unit(), 2 * unit()]);
    let faces = sketch.find_faces();
    assert_eq!(faces.len(), 2);
    assert_eq!(cycle(&faces[0].exterior), names(&["A", "B", "C"]));
    assert_eq!(cycle(&faces[1].exterior), names(&["A", "D", "B"]));
    assert!(faces[0].interiors.is_empty());
    assert!(faces[1].interiors.is_empty());
}

#[test]
fn empty_sketch_has_no_rings_and_no_faces() {
    let sketch = Sketch::new();
    assert!(sketch.find_rings().is_empty());
    assert!(sketch.find_faces().is_empty());
}

#[test]
fn open_chain_has_no_rings() {
    let mut sketch = Sketch::new();
    sketch.add_segments(Segment::link(
        vec![point(0, 0, "A"), point(1, 0, "B"), point(1, 1, "C")],
        false,
    ));
    assert!(sketch.find_rings().is_empty());
    assert!(sketch.find_faces().is_empty());
}

#[test]
fn dangling_segment_is_left_out() {
    let mut sketch = sketch_of(vec![loop_of(&[(-1, 0, "A"), (1, 0, "B"), (0, 1, "C")])]);
    sketch.add_segments(vec![Segment::Line(Line::new(point(5, 5, "P"), point(6, 5, "Q")))]);
    let rings = sketch.find_rings();
    assert_eq!(rings.len(), 2);
    assert_eq!(rings[0].len(), 3);
    assert_eq!(rings[1].len(), 3);
}

#[test]
fn points_that_coincide_under_other_names_do_not_connect() {
    let mut sketch = Sketch::new();
    sketch.add_segments(vec![
        Segment::Line(Line::new(point(-1, 0, "A"), point(1, 0, "B"))),
        Segment::Line(Line::new(point(1, 0, "B2"), point(0, 1, "C"))),
        Segment::Line(Line::new(point(0, 1, "C"), point(-1, 0, "A"))),
    ]);
    assert!(sketch.find_rings().is_empty());
}

#[test]
fn arcs_close_rings_like_their_chords() {
    let a = point(1, 1, "A");
    let b = point(-1, 1, "B");
    let c = point(-1, 0, "C");
    let d = point(1, 0, "D");
    let top = point(0, 2, "T");
    let sketch = sketch_of(vec![vec![
        Segment::Arc(Arc::new(a.clone(), b.clone(), top)),
        Segment::Line(Line::new(b.clone(), c.clone())),
        Segment::Line(Line::new(c.clone(), d.clone())),
        Segment::Line(Line::new(d.clone(), a.clone())),
    ]]);
    let faces = sketch.find_faces();
    assert_eq!(faces.len(), 1);
    assert_eq!(signed_area(&faces[0].exterior).doubled, 4 * unit());
    assert!(matches!(faces[0].exterior[0], Segment::Arc(_)));
}

#[test]
fn add_segments_appends() {
    let mut sketch = Sketch::new();
    sketch.add_segments(loop_of(&[(0, 0, "A"), (1, 0, "B"), (1, 1, "C")]));
    sketch.add_segments(loop_of(&[(5, 5, "D"), (6, 5, "E"), (6, 6, "F")]));
    assert_eq!(sketch.segments.len(), 6);
    assert_eq!(sketch.segments[0].get_start().id, "A");
    assert_eq!(sketch.segments[3].get_start().id, "D");
    let copy = sketch.clone();
    assert_eq!(copy.segments, sketch.segments);
}

#[test]
fn assemble_faces_drops_rings_without_positive_area() {
    let forward = loop_of(&[(0, 0, "A"), (1, 0, "B"), (1, 1, "C")]);
    let backward: Ring = forward.iter().rev().map(|s| s.reverse()).collect();
    let flat = loop_of(&[(0, 0, "A"), (1, 0, "B"), (2, 0, "C")]);
    let faces: Vec<Face> = assemble_faces(&vec![backward, flat, forward.clone()]);
    assert_eq!(faces.len(), 1);
    assert_eq!(faces[0].exterior, forward);
}

#[test]
fn a_ring_outside_is_no_hole() {
    let small = loop_of(&[(10, 10, "A"), (11, 10, "B"), (11, 11, "C")]);
    let big = loop_of(&[(0, 0, "E"), (4, 0, "F"), (4, 4, "G"), (0, 4, "H")]);
    let faces = assemble_faces(&vec![small, big]);
    assert_eq!(faces.len(), 2);
    assert!(faces[0].interiors.is_empty());
    assert!(faces[1].interiors.is_empty());
}

#[test]
fn a_ring_that_sticks_out_is_no_hole() {
    let small = loop_of(&[(3, 1, "A"), (5, 1, "B"), (5, 2, "C")]);
    let big = loop_of(&[(0, 0, "E"), (4, 0, "F"), (4, 4, "G"), (0, 4, "H")]);
    let faces = assemble_faces(&vec![small, big]);
    assert_eq!(faces.len(), 2);
    assert!(faces[1].interiors.is_empty());
}

#[test]
fn outline_lists_the_start_points() {
    let ring = loop_of(&[(0, 0, "A"), (2, 0, "B"), (2, 3, "C")]);
    let u = UNITS_PER_ONE;
    assert_eq!(as_polygon(&ring), vec![(0, 0), (2 * u, 0), (2 * u, 3 * u)]);
    assert_eq!(as_polygon(&Vec::new()), Vec::<(i32, i32)>::new());
}

#[test]
fn rings_are_closed_chains_that_share_no_directed_segment() {
    let sketch = sketch_of(vec![
        loop_of(&[(0, 0, "A"), (1, 0, "B"), (1, 1, "C"), (0, 1, "D")]),
        loop_of(&[(-1, -1, "E"), (2, -1, "F"), (2, 2, "G"), (-1, 2, "H")]),
        vec![Segment::Line(Line::new(point(0, 0, "A"), point(-1, -1, "E")))],
    ]);
    let rings = sketch.find_rings();
    assert!(!rings.is_empty());
    let mut seen: Vec<Segment> = Vec::new();
    let mut last_area = i128::MIN;
    for ring in rings.iter() {
        for k in 0..ring.len() {
            let next = &ring[(k + 1) % ring.len()];
            assert_eq!(ring[k].get_end(), next.get_start());
            assert!(!seen.contains(&ring[k]), "{:?} lies on two rings", ring[k]);
            seen.push(ring[k].clone());
        }
        assert!(ring.len() <= 2 * sketch.segments.len());
        let area = signed_area(ring).doubled;
        assert!(last_area <= area);
        last_area = area;
    }
}
