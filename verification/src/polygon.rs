use vstd::prelude::*;
use crate::error::GeometryError;
use crate::filter::{accepts, filter_accepts};
use crate::point::{
    copy_points, move_points, offset, offset_between, offset_exists, points_are_close,
    points_can_move, points_close, points_moved, Point,
};
use crate::utils::geometry::{
    bounding_box, doubled_area, doubled_area_spec, inside, is_bounding_box, is_point_inside,
    is_point_on_edge, on_edge, turned_to,
};
use crate::validation::{check_data_type_valid, check_layer_valid, layer_valid};

verus! {

/// A closed ring of points on a layer. The last point repeats the first.
#[derive(Debug)]
pub struct Polygon {
    pub points: Vec<Point>,
    pub layer: i32,
    pub data_type: i32,
}

/// What a polygon is: its points in order, its layer and its data type.
pub struct PolygonView {
    pub points: Seq<Point>,
    pub layer: i32,
    pub data_type: i32,
}

impl View for Polygon {
    type V = PolygonView;

    open spec fn view(&self) -> PolygonView {
        PolygonView { points: self.points@, layer: self.layer, data_type: self.data_type }
    }
}

/// Whether the last point of the list repeats the first. An empty list counts as closed.
pub open spec fn is_closed(points: Seq<Point>) -> bool {
    points.len() == 0 || points[0] == points[points.len() - 1]
}

/// The list as a ring: as it is where it is closed, with its first point added at the
/// end where it is not.
pub open spec fn closed(points: Seq<Point>) -> Seq<Point> {
    if is_closed(points) {
        points
    } else {
        points.push(points[0])
    }
}

/// Closes a list of points into a ring by repeating its first point at the end, unless
/// the last point repeats it already.
pub fn close_points(points: &Vec<Point>) -> (ring: Vec<Point>)
    ensures
        ring@ == closed(points@),
{
    let mut ring = copy_points(points);
    if points.len() > 0 {
        let first = points[0];
        let last = points[points.len() - 1];
        if first.x != last.x || first.y != last.y {
            ring.push(first);
        }
    }
    ring
}

/// The points of a polygon as it stores them: closed into a ring.
pub fn get_correct_polygon_points_format(points: Vec<Point>) -> (ring: Vec<Point>)
    ensures
        ring@ == closed(points@),
{
    close_points(&points)
}

impl PolygonView {
    /// Whether the two polygons agree: the same number of points, place by place less
    /// than `epsilon` apart, and the same layer and data type.
    pub open spec fn equal_within(self, other: PolygonView, epsilon: u32) -> bool {
        &&& points_close(self.points, other.points, epsilon)
        &&& self.layer == other.layer
        &&& self.data_type == other.data_type
    }

    /// Whether a filter lets the polygon through.
    pub open spec fn on(self, filter: Seq<(i32, i32)>) -> bool {
        accepts(filter, self.layer, self.data_type)
    }

    /// The polygon displaced by `vector`.
    pub open spec fn moved_by(self, vector: Point) -> PolygonView {
        PolygonView { points: points_moved(self.points, vector), ..self }
    }

    /// Whether the polygon can be displaced so that its first point comes to lie on
    /// `target`.
    pub open spec fn can_move_to(self, target: Point) -> bool {
        &&& self.points.len() > 0
        &&& offset_exists(self.points[0], target)
        &&& points_can_move(self.points, offset_between(self.points[0], target))
    }
}

/// Whether three of the points are three different points.
pub open spec fn three_distinct(points: Seq<Point>) -> bool {
    exists|i: int, j: int, k: int|
        0 <= i < points.len() && 0 <= j < points.len() && 0 <= k < points.len() && #[trigger] points[i]
            != #[trigger] points[j] && points[i] != #[trigger] points[k] && points[j] != points[k]
}

/// Whether three of the points are three different points.
pub fn has_three_distinct(points: &Vec<Point>) -> (found: bool)
    ensures
        found == three_distinct(points@),
{
    if points.len() == 0 {
        return false;
    }
    let first = points[0];
    let mut index: usize = 1;
    while index < points.len() && points[index].x == first.x && points[index].y == first.y
        invariant
            1 <= index <= points.len(),
            first == points@[0],
            forall|i: int| 0 <= i < index ==> #[trigger] points@[i] == first,
        decreases points.len() - index,
    {
        index = index + 1;
    }
    if index == points.len() {
        proof {
            assert(!three_distinct(points@)) by {
                if three_distinct(points@) {
                    let (i, j, k) = choose|i: int, j: int, k: int|
                        0 <= i < points@.len() && 0 <= j < points@.len() && 0 <= k < points@.len()
                            && #[trigger] points@[i] != #[trigger] points@[j] && points@[i]
                            != #[trigger] points@[k] && points@[j] != points@[k];
                    assert(points@[i] == first);
                    assert(points@[j] == first);
                }
            }
        }
        return false;
    }
    let second = points[index];
    let ghost place = index as int;
    let mut next: usize = index + 1;
    while next < points.len()
        invariant
            0 < place < next <= points.len(),
            first == points@[0],
            second == points@[place],
            second != first,
            forall|i: int| 0 <= i < place ==> #[trigger] points@[i] == first,
            forall|i: int| place <= i < next ==> #[trigger] points@[i] == first || points@[i] == second,
        decreases points.len() - next,
    {
        let here = points[next];
        let is_first = here.x == first.x && here.y == first.y;
        let is_second = here.x == second.x && here.y == second.y;
        if !is_first && !is_second {
            assert(points@[0] != points@[place] && points@[0] != points@[next as int]
                && points@[place] != points@[next as int]);
            return true;
        }
        next = next + 1;
    }
    proof {
        assert forall|i: int| 0 <= i < points@.len() implies #[trigger] points@[i] == first
            || points@[i] == second by {}
        assert(!three_distinct(points@)) by {
            if three_distinct(points@) {
                let (i, j, k) = choose|i: int, j: int, k: int|
                    0 <= i < points@.len() && 0 <= j < points@.len() && 0 <= k < points@.len()
                        && #[trigger] points@[i] != #[trigger] points@[j] && points@[i]
                        != #[trigger] points@[k] && points@[j] != points@[k];
                assert(points@[i] == first || points@[i] == second);
                assert(points@[j] == first || points@[j] == second);
                assert(points@[k] == first || points@[k] == second);
            }
        }
    }
    false
}

impl Polygon {
    /// What `new` answers for the given arguments.
    pub open spec fn new_spec(points: Seq<Point>, layer: i32, data_type: i32) -> Result<
        PolygonView,
        GeometryError,
    > {
        if points.len() == 0 {
            Err(GeometryError::EmptyPoints)
        } else if !three_distinct(points) {
            Err(GeometryError::TooFewPoints)
        } else if !layer_valid(layer) {
            Err(GeometryError::LayerOutOfRange)
        } else {
            Ok(PolygonView { points: closed(points), layer, data_type })
        }
    }

    /// A polygon through `points`, closed into a ring. An empty list is refused, then
    /// one without three different points, then a layer outside 0 to 255.
    pub fn new(points: Vec<Point>, layer: i32, data_type: i32) -> (result: Result<
        Polygon,
        GeometryError,
    >)
        ensures
            match result {
                Ok(polygon) => Polygon::new_spec(points@, layer, data_type) == Ok::<
                    PolygonView,
                    GeometryError,
                >(polygon@),
                Err(error) => Polygon::new_spec(points@, layer, data_type) == Err::<
                    PolygonView,
                    GeometryError,
                >(error),
            },
    {
        if points.len() == 0 {
            return Err(GeometryError::EmptyPoints);
        }
        if !has_three_distinct(&points) {
            return Err(GeometryError::TooFewPoints);
        }
        let ring = get_correct_polygon_points_format(points);
        match check_layer_valid(layer) {
            Err(error) => {
                return Err(error);
            },
            Ok(_) => {},
        }
        match check_data_type_valid(data_type) {
            Err(error) => {
                return Err(error);
            },
            Ok(_) => {},
        }
        Ok(Polygon { points: ring, layer, data_type })
    }

    /// A copy of the polygon.
    pub fn copy(&self) -> (polygon: Polygon)
        ensures
            polygon@ == self@,
    {
        Polygon { points: copy_points(&self.points), layer: self.layer, data_type: self.data_type }
    }

    /// Whether the filter lets the polygon through: whether it is empty or holds the
    /// polygon's layer and data type as a pair.
    pub fn is_on(&self, layer_data_types: &Vec<(i32, i32)>) -> (on: bool)
        ensures
            on == self@.on(layer_data_types@),
    {
        filter_accepts(layer_data_types, self.layer, self.data_type)
    }

    /// Whether the two polygons agree within `epsilon`.
    pub fn is_equal(&self, other: &Polygon, epsilon: u32) -> (equal: bool)
        ensures
            equal == self@.equal_within(other@, epsilon),
    {
        points_are_close(&self.points, &other.points, epsilon) && self.layer == other.layer
            && self.data_type == other.data_type
    }

    /// The smallest upright rectangle that holds every point, as its lower left and its
    /// upper right corner; `None` for a polygon without points.
    pub fn bounding_box(&self) -> (corners: Option<(Point, Point)>)
        ensures
            corners.is_some() <==> self@.points.len() > 0,
            corners matches Some((low, high)) ==> is_bounding_box(self@.points, low, high),
    {
        bounding_box(&self.points)
    }

    /// Displaces every point by `vector`. Where a coordinate would leave the range of
    /// thirty-two signed bits the polygon stays as it is and `false` is returned.
    pub fn move_by(&mut self, vector: Point) -> (moved: bool)
        ensures
            moved == points_can_move(old(self)@.points, vector),
            final(self)@ == if moved {
                old(self)@.moved_by(vector)
            } else {
                old(self)@
            },
    {
        match move_points(&self.points, vector) {
            Some(points) => {
                self.points = points;
                true
            },
            None => false,
        }
    }

    /// Displaces the polygon so that its first point comes to lie on `target`. A polygon
    /// without points, or one of which a coordinate would leave the range of thirty-two
    /// signed bits, stays as it is, and `false` is returned.
    pub fn move_to(&mut self, target: Point) -> (moved: bool)
        ensures
            moved == old(self)@.can_move_to(target),
            final(self)@ == if moved {
                old(self)@.moved_by(offset_between(old(self)@.points[0], target))
            } else {
                old(self)@
            },
    {
        if self.points.len() == 0 {
            return false;
        }
        match offset(self.points[0], target) {
            Some(vector) => self.move_by(vector),
            None => false,
        }
    }
}


/// A list of points without the points that repeat the point before them.
pub open spec fn deduped(points: Seq<Point>) -> Seq<Point>
    decreases points.len(),
{
    if points.len() == 0 {
        Seq::empty()
    } else {
        let first = deduped(points.drop_last());
        if first.len() > 0 && first[first.len() - 1] == points[points.len() - 1] {
            first
        } else {
            first.push(points[points.len() - 1])
        }
    }
}

/// Whether the line through three points bends at the middle one.
pub open spec fn bends(first: Point, middle: Point, last: Point) -> bool {
    (middle.x - first.x) * (last.y - middle.y) != (middle.y - first.y) * (last.x - middle.x)
}

/// The first point of a list, and of the points after it up to place `count` those at
/// which the line through the list bends.
pub open spec fn thinned_to(points: Seq<Point>, count: int) -> Seq<Point>
    decreases count,
{
    if count <= 1 {
        seq![points[0]]
    } else {
        let first = thinned_to(points, count - 1);
        if bends(points[count - 2], points[count - 1], points[count as int]) {
            first.push(points[count - 1])
        } else {
            first
        }
    }
}

/// A ring of points made simple: without repeated points, without its last point and
/// the points in between at which it does not bend, then without points that this has
/// made repeat, and closed again. A list of fewer than three points is left as it is.
pub open spec fn simplified(points: Seq<Point>) -> Seq<Point> {
    if points.len() < 3 {
        points
    } else {
        closed(deduped(thinned_to(deduped(points), deduped(points).len() - 1)))
    }
}

/// A copy of a list without the points that repeat the point before them.
fn dedup_points(points: &Vec<Point>) -> (unique: Vec<Point>)
    ensures
        unique@ == deduped(points@),
        points@.len() > 0 ==> unique@.len() > 0,
        unique@.len() <= points@.len(),
{
    let mut unique: Vec<Point> = Vec::new();
    let mut index: usize = 0;
    proof {
        assert(points@.take(0) =~= Seq::<Point>::empty());
    }
    while index < points.len()
        invariant
            index <= points.len(),
            unique@ == deduped(points@.take(index as int)),
            index > 0 ==> unique@.len() > 0,
            unique@.len() <= index,
        decreases points.len() - index,
    {
        proof {
            let next = points@.take(index + 1);
            assert(next.drop_last() =~= points@.take(index as int));
            assert(next[next.len() - 1] == points@[index as int]);
        }
        let point = points[index];
        let repeats = unique.len() > 0 && unique[unique.len() - 1].x == point.x
            && unique[unique.len() - 1].y == point.y;
        if !repeats {
            unique.push(point);
        }
        index = index + 1;
    }
    proof {
        assert(points@.take(points.len() as int) =~= points@);
    }
    unique
}

/// Whether the line through three points bends at the middle one.
#[verifier::spinoff_prover]
fn line_bends(first: Point, middle: Point, last: Point) -> (bent: bool)
    ensures
        bent == bends(first, middle, last),
{
    let run: i64 = middle.x as i64 - first.x as i64;
    let rise: i64 = middle.y as i64 - first.y as i64;
    let next_run: i64 = last.x as i64 - middle.x as i64;
    let next_rise: i64 = last.y as i64 - middle.y as i64;
    assert(-0x1_0000_0000_0000_0000 <= run * next_rise <= 0x1_0000_0000_0000_0000)
        by (nonlinear_arith)
        requires
            -0xFFFF_FFFF <= run <= 0xFFFF_FFFF,
            -0xFFFF_FFFF <= next_rise <= 0xFFFF_FFFF,
    ;
    assert(-0x1_0000_0000_0000_0000 <= rise * next_run <= 0x1_0000_0000_0000_0000)
        by (nonlinear_arith)
        requires
            -0xFFFF_FFFF <= rise <= 0xFFFF_FFFF,
            -0xFFFF_FFFF <= next_run <= 0xFFFF_FFFF,
    ;
    let left: i128 = run as i128 * next_rise as i128;
    let right: i128 = rise as i128 * next_run as i128;
    left != right
}

impl Polygon {
    /// Makes the ring simple: drops repeated points and points at which the ring does
    /// not bend, and closes it. A polygon of fewer than three points is left as it is.
    pub fn simplify(&mut self)
        ensures
            final(self)@ == (PolygonView { points: simplified(old(self)@.points), ..old(self)@ }),
    {
        if self.points.len() < 3 {
            return ;
        }
        let unique = dedup_points(&self.points);
        let mut kept: Vec<Point> = Vec::new();
        kept.push(unique[0]);
        let last: usize = unique.len() - 1;
        let mut index: usize = 1;
        proof {
            assert(kept@ =~= seq![unique@[0]]);
            assert(thinned_to(unique@, 0) == seq![unique@[0]]);
            assert(thinned_to(unique@, 1) == seq![unique@[0]]);
        }
        while index < last
            invariant
                last == unique@.len() - 1,
                1 <= index,
                index <= last || (last == 0 && index == 1),
                kept@ == thinned_to(unique@, index as int),
            decreases last - index,
        {
            if line_bends(unique[index - 1], unique[index], unique[index + 1]) {
                kept.push(unique[index]);
            }
            index = index + 1;
        }
        proof {
            if last == 0 {
                assert(thinned_to(unique@, 0) == seq![unique@[0]]);
                assert(thinned_to(unique@, 1) == seq![unique@[0]]);
                assert(index == 1);
            }
            assert(kept@ == thinned_to(unique@, last as int));
        }
        let thin = dedup_points(&kept);
        self.points = close_points(&thin);
    }

    /// Twice the area that the ring encloses.
    pub fn area(&self) -> (doubled: u128)
        ensures
            doubled == doubled_area_spec(self@.points),
    {
        doubled_area(&self.points)
    }

    /// Whether a point lies inside the ring or on an edge of it.
    pub fn contains(&self, point: Point) -> (within: bool)
        ensures
            within == inside(point, self@.points),
    {
        is_point_inside(&point, &self.points)
    }

    /// Whether a point lies on an edge of the ring.
    pub fn on_edge(&self, point: Point) -> (on: bool)
        ensures
            on == on_edge(point, self@.points),
    {
        is_point_on_edge(&point, &self.points)
    }

    /// Whether a point of one of the two rings lies inside the other or on an edge of
    /// it.
    pub fn intersects(&self, other: &Polygon) -> (met: bool)
        ensures
            met == (any_inside(self@.points, other@.points) || any_inside(
                other@.points,
                self@.points,
            )),
    {
        some_point_inside(&self.points, &other.points) || some_point_inside(
            &other.points,
            &self.points,
        )
    }
}

/// Whether one of the points lies inside a ring or on an edge of it.
pub open spec fn any_inside(points: Seq<Point>, ring: Seq<Point>) -> bool {
    exists|i: int| 0 <= i < points.len() && inside(#[trigger] points[i], ring)
}

/// Whether one of the points lies inside a ring or on an edge of it.
fn some_point_inside(points: &Vec<Point>, ring: &Vec<Point>) -> (found: bool)
    ensures
        found == any_inside(points@, ring@),
{
    let mut index: usize = 0;
    while index < points.len()
        invariant
            index <= points.len(),
            forall|i: int| 0 <= i < index ==> !inside(#[trigger] points@[i], ring@),
        decreases points.len() - index,
    {
        if is_point_inside(&points[index], ring) {
            return true;
        }
        index = index + 1;
    }
    false
}


/// A ring without the last point, which repeats the first; no points where there are
/// none.
pub open spec fn opened(points: Seq<Point>) -> Seq<Point> {
    if points.len() == 0 {
        points
    } else {
        points.drop_last()
    }
}

/// Whether two open rings are the same within `epsilon`, one running either way.
pub open spec fn matches_either_way(first: Seq<Point>, second: Seq<Point>, epsilon: u32) -> bool {
    points_close(first, second, epsilon) || points_close(first, second.reverse(), epsilon)
}

/// Whether two rings look alike within `epsilon`: whether, made simple and opened, one
/// is the other, started at some point of it and run either way.
pub open spec fn alike(first: Seq<Point>, second: Seq<Point>, epsilon: u32) -> bool {
    let one = opened(simplified(first));
    let other = opened(simplified(second));
    matches_either_way(one, other, epsilon) || exists|start: int|
        0 <= start < one.len() && matches_either_way(
            #[trigger] turned_to(one, start),
            other,
            epsilon,
        )
}

/// A copy of a list, the last point first.
fn reversed(points: &Vec<Point>) -> (back: Vec<Point>)
    ensures
        back@ == points@.reverse(),
{
    let mut back: Vec<Point> = Vec::new();
    let length = points.len();
    let mut index: usize = 0;
    while index < length
        invariant
            length == points.len(),
            index <= length,
            back@.len() == index,
            forall|i: int| 0 <= i < index ==> back@[i] == points@[length - 1 - i],
        decreases length - index,
    {
        back.push(points[length - 1 - index]);
        index = index + 1;
    }
    assert(back@ =~= points@.reverse());
    back
}

/// A copy of a list turned so that the point at `start` comes first.
fn turned_copy(points: &Vec<Point>, start: usize) -> (turned: Vec<Point>)
    requires
        start <= points.len(),
    ensures
        turned@ == turned_to(points@, start as int),
{
    let mut turned: Vec<Point> = Vec::new();
    let length = points.len();
    let mut place: usize = start;
    while place < length
        invariant
            length == points.len(),
            start <= place <= length,
            turned@ == points@.subrange(start as int, place as int),
        decreases length - place,
    {
        turned.push(points[place]);
        assert(points@.subrange(start as int, place + 1) =~= points@.subrange(
            start as int,
            place as int,
        ).push(points@[place as int]));
        place = place + 1;
    }
    place = 0;
    while place < start
        invariant
            length == points.len(),
            place <= start <= length,
            turned@ == points@.skip(start as int) + points@.take(place as int),
        decreases start - place,
    {
        turned.push(points[place]);
        assert(points@.take(place + 1) =~= points@.take(place as int).push(points@[place as int]));
        assert((points@.skip(start as int) + points@.take(place as int)).push(
            points@[place as int],
        ) =~= points@.skip(start as int) + points@.take(place + 1));
        place = place + 1;
    }
    turned
}

impl Polygon {
    /// Whether the two polygons look alike within `epsilon`: whether they are the same
    /// ring, whichever point it starts at and whichever way it runs. Layers and data
    /// types are not looked at.
    pub fn looks_like(&self, other: &Polygon, epsilon: u32) -> (same: bool)
        ensures
            same == alike(self@.points, other@.points, epsilon),
    {
        let mut first = self.copy();
        first.simplify();
        let mut second = other.copy();
        second.simplify();
        let mut one = first.points;
        let mut another = second.points;
        if one.len() > 0 {
            one.pop();
        }
        if another.len() > 0 {
            another.pop();
        }
        assert(one@ == opened(simplified(self@.points)));
        assert(another@ == opened(simplified(other@.points)));
        let back = reversed(&another);
        if points_are_close(&one, &another, epsilon) || points_are_close(&one, &back, epsilon) {
            return true;
        }
        let mut start: usize = 0;
        while start < one.len()
            invariant
                start <= one.len(),
                back@ == another@.reverse(),
                one@ == opened(simplified(self@.points)),
                another@ == opened(simplified(other@.points)),
                !matches_either_way(one@, another@, epsilon),
                forall|i: int|
                    0 <= i < start ==> !matches_either_way(
                        #[trigger] turned_to(one@, i),
                        another@,
                        epsilon,
                    ),
            decreases one.len() - start,
        {
            let turned = turned_copy(&one, start);
            if points_are_close(&turned, &another, epsilon) || points_are_close(
                &turned,
                &back,
                epsilon,
            ) {
                assert(matches_either_way(turned_to(one@, start as int), another@, epsilon));
                return true;
            }
            start = start + 1;
        }
        false
    }
}

} // verus!
