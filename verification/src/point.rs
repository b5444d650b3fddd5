//! Named points on the grid.

use vstd::prelude::*;

verus! {

/// How many grid units make one sketch unit.
pub const UNITS_PER_ONE: i32 = 100_000;

/// A point of a sketch: grid coordinates and the label that identifies it.
///
/// Two segments connect only where they name the same point: closeness of
/// the coordinates alone does not connect them.
#[derive(Debug)]
pub struct Point {
    pub x: i32,
    pub y: i32,
    pub id: String,
}

/// Two coordinates that differ by one grid unit at most.
pub open spec fn close(a: int, b: int) -> bool {
    -1 <= a - b <= 1
}

impl Point {
    /// Point equality: both coordinates close, and the same label.
    pub open spec fn same(&self, other: &Point) -> bool {
        &&& close(self.x as int, other.x as int)
        &&& close(self.y as int, other.y as int)
        &&& self.id@ == other.id@
    }

    pub fn new(x: i32, y: i32, id: &str) -> (r: Point)
        ensures
            r.x == x,
            r.y == y,
            r.id@ == id@,
    {
        Point { x, y, id: id.to_owned() }
    }
}

impl Clone for Point {
    fn clone(&self) -> (r: Point)
        ensures
            r == *self,
    {
        Point { x: self.x, y: self.y, id: self.id.clone() }
    }
}

impl PartialEq for Point {
    fn eq(&self, other: &Point) -> (r: bool) {
        let dx: i64 = self.x as i64 - other.x as i64;
        let dy: i64 = self.y as i64 - other.y as i64;
        -1 <= dx && dx <= 1 && -1 <= dy && dy <= 1 && self.id == other.id
    }
}

impl vstd::std_specs::cmp::PartialEqSpecImpl for Point {
    open spec fn obeys_eq_spec() -> bool {
        true
    }

    open spec fn eq_spec(&self, other: &Point) -> bool {
        self.same(other)
    }
}

impl Eq for Point {

}

} // verus!
