use vstd::prelude::*;

verus! {

/// A position, or a displacement, in whole database units.
#[derive(Debug, Clone, Copy, PartialEq, Eq, Structural)]
pub struct Point {
    pub x: i32,
    pub y: i32,
}

/// Whether `value` can be a coordinate: whether it fits thirty-two signed bits.
pub open spec fn is_coordinate(value: int) -> bool {
    -0x8000_0000 <= value <= 0x7FFF_FFFF
}

/// Whether two coordinates lie less than `epsilon` apart.
pub open spec fn close_spec(a: i32, b: i32, epsilon: u32) -> bool {
    -(epsilon as int) < a - b < epsilon as int
}

/// Whether two coordinates lie less than `epsilon` apart. With `epsilon` 1 this is
/// equality; with `epsilon` 0 nothing is close to anything.
pub fn epsilon_is_close(a: i32, b: i32, epsilon: u32) -> (close: bool)
    ensures
        close == close_spec(a, b, epsilon),
{
    let difference: i64 = a as i64 - b as i64;
    let bound: i64 = epsilon as i64;
    -bound < difference && difference < bound
}

impl Point {
    /// Whether both coordinates of the two points lie less than `epsilon` apart.
    pub open spec fn close_to(self, other: Point, epsilon: u32) -> bool {
        close_spec(self.x, other.x, epsilon) && close_spec(self.y, other.y, epsilon)
    }

    /// Whether the point displaced by `vector` still has coordinates.
    pub open spec fn can_move_by(self, vector: Point) -> bool {
        is_coordinate(self.x + vector.x) && is_coordinate(self.y + vector.y)
    }

    /// The point displaced by `vector`.
    pub open spec fn moved_by(self, vector: Point) -> Point
        recommends
            self.can_move_by(vector),
    {
        Point { x: (self.x + vector.x) as i32, y: (self.y + vector.y) as i32 }
    }

    /// The z component of the cross product of the two position vectors.
    pub open spec fn cross_spec(self, other: Point) -> int {
        self.x * other.y - self.y * other.x
    }

    /// The point with the given coordinates.
    pub fn new(x: i32, y: i32) -> (point: Point)
        ensures
            point == (Point { x, y }),
    {
        Point { x, y }
    }

    /// A copy of the point.
    pub fn copy(&self) -> (point: Point)
        ensures
            point == *self,
    {
        *self
    }

    /// The z component of the cross product of the two position vectors: positive where
    /// `other` lies counter-clockwise of `self`.
    #[verifier::spinoff_prover]
    pub fn cross(&self, other: Point) -> (product: i64)
        ensures
            product == self.cross_spec(other),
    {
        let left: i64 = self.x as i64;
        let right: i64 = other.y as i64;
        let first: i64 = self.y as i64;
        let second: i64 = other.x as i64;
        assert(-0x4000_0000_0000_0000 <= left * right <= 0x4000_0000_0000_0000)
            by (nonlinear_arith)
            requires
                -0x8000_0000 <= left <= 0x7FFF_FFFF,
                -0x8000_0000 <= right <= 0x7FFF_FFFF,
        ;
        assert(-0x4000_0000_0000_0000 <= first * second <= 0x4000_0000_0000_0000)
            by (nonlinear_arith)
            requires
                -0x8000_0000 <= first <= 0x7FFF_FFFF,
                -0x8000_0000 <= second <= 0x7FFF_FFFF,
        ;
        assert(left * right - first * second <= 0x7FFF_FFFF_FFFF_FFFF) by (nonlinear_arith)
            requires
                -0x8000_0000 <= left <= 0x7FFF_FFFF,
                -0x8000_0000 <= right <= 0x7FFF_FFFF,
                -0x8000_0000 <= first <= 0x7FFF_FFFF,
                -0x8000_0000 <= second <= 0x7FFF_FFFF,
        ;
        left * right - first * second
    }

    /// The point displaced by `vector`; `None` where a coordinate would leave the range
    /// of thirty-two signed bits.
    pub fn move_by(&self, vector: Point) -> (moved: Option<Point>)
        ensures
            moved.is_some() <==> self.can_move_by(vector),
            moved matches Some(point) ==> point == self.moved_by(vector),
    {
        let x: i64 = self.x as i64 + vector.x as i64;
        let y: i64 = self.y as i64 + vector.y as i64;
        if x < -0x8000_0000 || x > 0x7FFF_FFFF || y < -0x8000_0000 || y > 0x7FFF_FFFF {
            None
        } else {
            Some(Point { x: x as i32, y: y as i32 })
        }
    }

    /// The vector turned a quarter turn counter-clockwise; `None` where its y
    /// coordinate has no negative of thirty-two signed bits.
    pub fn ortho(&self) -> (turned: Option<Point>)
        ensures
            turned.is_some() <==> self.y != i32::MIN,
            turned matches Some(point) ==> point.x == -self.y && point.y == self.x,
    {
        if self.y == i32::MIN {
            None
        } else {
            Some(Point { x: -self.y, y: self.x })
        }
    }

    /// Whether both coordinates of the two points lie less than `epsilon` apart.
    pub fn epsilon_is_close(&self, other: Point, epsilon: u32) -> (close: bool)
        ensures
            close == self.close_to(other, epsilon),
    {
        epsilon_is_close(self.x, other.x, epsilon) && epsilon_is_close(self.y, other.y, epsilon)
    }
}

/// The points of a flat list of coordinates, taken two by two; a last coordinate
/// without a partner is left out.
pub open spec fn points_of(coordinates: Seq<i32>) -> Seq<Point> {
    Seq::new(
        (coordinates.len() / 2) as nat,
        |i: int| Point { x: coordinates[2 * i], y: coordinates[2 * i + 1] },
    )
}

/// The points of a flat list of coordinates, taken two by two.
pub fn get_points_from_i32_vec(vec: Vec<i32>) -> (points: Vec<Point>)
    ensures
        points@ == points_of(vec@),
{
    let mut points: Vec<Point> = Vec::new();
    let mut index: usize = 0;
    while index + 1 < vec.len()
        invariant
            index % 2 == 0,
            index <= vec.len(),
            points@.len() == index / 2,
            forall|i: int|
                0 <= i < points@.len() ==> points@[i] == (Point {
                    x: vec@[2 * i],
                    y: vec@[2 * i + 1],
                }),
        decreases vec.len() - index,
    {
        points.push(Point { x: vec[index], y: vec[index + 1] });
        index = index + 2;
    }
    assert(points@ =~= points_of(vec@));
    points
}

/// Whether the two lists have the same length and, place by place, points less than
/// `epsilon` apart.
pub open spec fn points_close(first: Seq<Point>, second: Seq<Point>, epsilon: u32) -> bool {
    first.len() == second.len() && forall|i: int|
        0 <= i < first.len() ==> (#[trigger] first[i]).close_to(second[i], epsilon)
}

/// Whether the two lists have the same length and, place by place, points less than
/// `epsilon` apart.
pub fn points_are_close(points1: &Vec<Point>, points2: &Vec<Point>, epsilon: u32) -> (close: bool)
    ensures
        close == points_close(points1@, points2@, epsilon),
{
    if points1.len() != points2.len() {
        return false;
    }
    let mut index: usize = 0;
    while index < points1.len()
        invariant
            points1.len() == points2.len(),
            index <= points1.len(),
            forall|i: int| 0 <= i < index ==> (#[trigger] points1@[i]).close_to(points2@[i], epsilon),
        decreases points1.len() - index,
    {
        if !points1[index].epsilon_is_close(points2[index], epsilon) {
            return false;
        }
        index = index + 1;
    }
    true
}

/// A copy of a list of points.
pub fn copy_points(points: &Vec<Point>) -> (copy: Vec<Point>)
    ensures
        copy@ == points@,
{
    let mut copy: Vec<Point> = Vec::new();
    let mut index: usize = 0;
    while index < points.len()
        invariant
            index <= points.len(),
            copy@ == points@.take(index as int),
        decreases points.len() - index,
    {
        copy.push(points[index]);
        assert(points@.take(index + 1) =~= points@.take(index as int).push(points@[index as int]));
        index = index + 1;
    }
    assert(points@.take(points.len() as int) =~= points@);
    copy
}


/// Whether every point of the list, displaced by `vector`, still has coordinates.
pub open spec fn points_can_move(points: Seq<Point>, vector: Point) -> bool {
    forall|i: int| 0 <= i < points.len() ==> (#[trigger] points[i]).can_move_by(vector)
}

/// The list with every point displaced by `vector`.
pub open spec fn points_moved(points: Seq<Point>, vector: Point) -> Seq<Point> {
    Seq::new(points.len(), |i: int| points[i].moved_by(vector))
}

/// The list with every point displaced by `vector`; `None` where a coordinate of some
/// point would leave the range of thirty-two signed bits.
pub fn move_points(points: &Vec<Point>, vector: Point) -> (moved: Option<Vec<Point>>)
    ensures
        moved.is_some() <==> points_can_move(points@, vector),
        moved matches Some(list) ==> list@ == points_moved(points@, vector),
{
    let mut list: Vec<Point> = Vec::new();
    let mut index: usize = 0;
    while index < points.len()
        invariant
            index <= points.len(),
            list@.len() == index,
            forall|i: int| 0 <= i < index ==> (#[trigger] points@[i]).can_move_by(vector),
            forall|i: int| 0 <= i < index ==> list@[i] == points@[i].moved_by(vector),
        decreases points.len() - index,
    {
        match points[index].move_by(vector) {
            Some(point) => {
                list.push(point);
            },
            None => {
                return None;
            },
        }
        index = index + 1;
    }
    assert(list@ =~= points_moved(points@, vector));
    Some(list)
}

/// The displacement that takes `from` to `to`, where its coordinates fit thirty-two
/// signed bits.
pub open spec fn offset_between(from: Point, to: Point) -> Point {
    Point { x: (to.x - from.x) as i32, y: (to.y - from.y) as i32 }
}

/// Whether the displacement that takes `from` to `to` has coordinates.
pub open spec fn offset_exists(from: Point, to: Point) -> bool {
    is_coordinate(to.x - from.x) && is_coordinate(to.y - from.y)
}

/// The displacement that takes `from` to `to`; `None` where a coordinate of it would
/// leave the range of thirty-two signed bits.
pub fn offset(from: Point, to: Point) -> (vector: Option<Point>)
    ensures
        vector.is_some() <==> offset_exists(from, to),
        vector matches Some(v) ==> v == offset_between(from, to),
{
    let x: i64 = to.x as i64 - from.x as i64;
    let y: i64 = to.y as i64 - from.y as i64;
    if x < -0x8000_0000 || x > 0x7FFF_FFFF || y < -0x8000_0000 || y > 0x7FFF_FFFF {
        None
    } else {
        Some(Point { x: x as i32, y: y as i32 })
    }
}

} // verus!
