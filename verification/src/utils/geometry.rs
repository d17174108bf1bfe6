use vstd::prelude::*;
use crate::point::Point;

verus! {

/// Whether `low` and `high` are the lower left and the upper right corner of the
/// smallest upright rectangle that holds every point of the list: no point lies outside,
/// and each of the four sides passes through a point.
pub open spec fn is_bounding_box(points: Seq<Point>, low: Point, high: Point) -> bool {
    &&& forall|i: int|
        0 <= i < points.len() ==> low.x <= (#[trigger] points[i]).x <= high.x && low.y
            <= points[i].y <= high.y
    &&& exists|i: int| 0 <= i < points.len() && (#[trigger] points[i]).x == low.x
    &&& exists|i: int| 0 <= i < points.len() && (#[trigger] points[i]).y == low.y
    &&& exists|i: int| 0 <= i < points.len() && (#[trigger] points[i]).x == high.x
    &&& exists|i: int| 0 <= i < points.len() && (#[trigger] points[i]).y == high.y
}

/// The smallest upright rectangle that holds every point of the list, as its lower left
/// and its upper right corner; `None` for an empty list.
pub fn bounding_box(points: &Vec<Point>) -> (corners: Option<(Point, Point)>)
    ensures
        corners.is_some() <==> points@.len() > 0,
        corners matches Some((low, high)) ==> is_bounding_box(points@, low, high),
{
    if points.len() == 0 {
        return None;
    }
    let mut low = points[0];
    let mut high = points[0];
    let mut index: usize = 1;
    proof {
        let first = points@.take(1);
        assert(first[0] == points@[0]);
    }
    while index < points.len()
        invariant
            1 <= index <= points.len(),
            is_bounding_box(points@.take(index as int), low, high),
        decreases points.len() - index,
    {
        let point = points[index];
        let ghost before = points@.take(index as int);
        let ghost after = points@.take(index + 1);
        let ghost old_low = low;
        let ghost old_high = high;
        if point.x < low.x {
            low.x = point.x;
        }
        if point.x > high.x {
            high.x = point.x;
        }
        if point.y < low.y {
            low.y = point.y;
        }
        if point.y > high.y {
            high.y = point.y;
        }
        proof {
            assert(after =~= before.push(point));
            assert(forall|i: int| 0 <= i < before.len() ==> after[i] == before[i]);
            let a = choose|i: int| 0 <= i < before.len() && (#[trigger] before[i]).x == old_low.x;
            let b = choose|i: int| 0 <= i < before.len() && (#[trigger] before[i]).y == old_low.y;
            let c = choose|i: int| 0 <= i < before.len() && (#[trigger] before[i]).x == old_high.x;
            let d = choose|i: int| 0 <= i < before.len() && (#[trigger] before[i]).y == old_high.y;
            let last = index as int;
            assert(after[last] == point);
            assert(after[a].x == old_low.x && after[b].y == old_low.y);
            assert(after[c].x == old_high.x && after[d].y == old_high.y);
            assert(exists|i: int| 0 <= i < after.len() && (#[trigger] after[i]).x == low.x) by {
                if point.x < old_low.x {
                    assert(after[last].x == low.x);
                } else {
                    assert(after[a].x == low.x);
                }
            }
            assert(exists|i: int| 0 <= i < after.len() && (#[trigger] after[i]).y == low.y) by {
                if point.y < old_low.y {
                    assert(after[last].y == low.y);
                } else {
                    assert(after[b].y == low.y);
                }
            }
            assert(exists|i: int| 0 <= i < after.len() && (#[trigger] after[i]).x == high.x) by {
                if point.x > old_high.x {
                    assert(after[last].x == high.x);
                } else {
                    assert(after[c].x == high.x);
                }
            }
            assert(exists|i: int| 0 <= i < after.len() && (#[trigger] after[i]).y == high.y) by {
                if point.y > old_high.y {
                    assert(after[last].y == high.y);
                } else {
                    assert(after[d].y == high.y);
                }
            }
            assert forall|i: int| 0 <= i < after.len() implies low.x <= (#[trigger] after[i]).x
                <= high.x && low.y <= after[i].y <= high.y by {
                if i < before.len() {
                    assert(after[i] == before[i]);
                }
            }
        }
        index = index + 1;
    }
    proof {
        assert(points@.take(points.len() as int) =~= points@);
    }
    Some((low, high))
}


/// The sum of the cross products of the first `count` points of a ring, each with the
/// point that follows it, the last with the first.
pub open spec fn cross_sum(points: Seq<Point>, count: int) -> int
    decreases count,
{
    if count <= 0 {
        0
    } else {
        cross_sum(points, count - 1) + points[count - 1].cross_spec(
            points[count % (points.len() as int)],
        )
    }
}

/// Twice the area that a ring of points encloses: a whole number, whichever way the
/// ring runs.
pub open spec fn doubled_area_spec(points: Seq<Point>) -> int {
    let sum = cross_sum(points, points.len() as int);
    if sum < 0 {
        -sum
    } else {
        sum
    }
}

/// No cross sum is larger than its count of points times the largest cross product.
pub proof fn lemma_cross_sum_bound(points: Seq<Point>, count: int)
    requires
        0 <= count <= points.len(),
    ensures
        -count * 0x8000_0000_0000_0000 <= cross_sum(points, count) <= count
            * 0x8000_0000_0000_0000,
    decreases count,
{
    if count > 0 {
        lemma_cross_sum_bound(points, count - 1);
        let first = points[count - 1];
        let second = points[count % (points.len() as int)];
        assert(-0x8000_0000_0000_0000 <= first.x * second.y - first.y * second.x
            <= 0x8000_0000_0000_0000) by (nonlinear_arith)
            requires
                -0x8000_0000 <= first.x <= 0x7FFF_FFFF,
                -0x8000_0000 <= first.y <= 0x7FFF_FFFF,
                -0x8000_0000 <= second.x <= 0x7FFF_FFFF,
                -0x8000_0000 <= second.y <= 0x7FFF_FFFF,
        ;
        assert((count - 1) * 0x8000_0000_0000_0000 + 0x8000_0000_0000_0000 == count
            * 0x8000_0000_0000_0000) by (nonlinear_arith);
    }
}

/// Twice the area that a ring of points encloses. Half of it is the area; it is given
/// doubled so that it is a whole number. No points enclose nothing.
#[verifier::spinoff_prover]
pub fn doubled_area(points: &Vec<Point>) -> (area: u128)
    ensures
        area == doubled_area_spec(points@),
{
    let length = points.len();
    let mut sum: i128 = 0;
    let mut index: usize = 0;
    while index < length
        invariant
            length == points.len(),
            index <= length,
            sum == cross_sum(points@, index as int),
        decreases length - index,
    {
        let next: usize = if index + 1 == length {
            0
        } else {
            index + 1
        };
        proof {
            lemma_cross_sum_bound(points@, index as int);
            lemma_cross_sum_bound(points@, index + 1);
            assert(index * 0x8000_0000_0000_0000 <= 0xFFFF_FFFF_FFFF_FFFF * 0x8000_0000_0000_0000)
                by (nonlinear_arith)
                requires
                    0 <= index <= 0xFFFF_FFFF_FFFF_FFFF,
            ;
            assert((index + 1) * 0x8000_0000_0000_0000 <= 0x1_0000_0000_0000_0000
                * 0x8000_0000_0000_0000) by (nonlinear_arith)
                requires
                    0 <= index <= 0xFFFF_FFFF_FFFF_FFFF,
            ;
            if index + 1 < length {
                vstd::arithmetic::div_mod::lemma_small_mod((index + 1) as nat, length as nat);
            } else {
                vstd::arithmetic::div_mod::lemma_mod_self_0(length as int);
            }
        }
        sum = sum + points[index].cross(points[next]) as i128;
        index = index + 1;
    }
    proof {
        lemma_cross_sum_bound(points@, length as int);
        assert(length * 0x8000_0000_0000_0000 <= 0xFFFF_FFFF_FFFF_FFFF * 0x8000_0000_0000_0000)
            by (nonlinear_arith)
            requires
                0 <= length <= 0xFFFF_FFFF_FFFF_FFFF,
        ;
    }
    if sum < 0 {
        (-sum) as u128
    } else {
        sum as u128
    }
}

/// Whether a point lies on the stretch from `from` to `to`, its ends counted in: within
/// the box of the two ends, and on the line through them.
pub open spec fn on_stretch(point: Point, from: Point, to: Point) -> bool {
    &&& (from.x <= point.x <= to.x || to.x <= point.x <= from.x)
    &&& (from.y <= point.y <= to.y || to.y <= point.y <= from.y)
    &&& (point.y - from.y) * (to.x - from.x) == (point.x - from.x) * (to.y - from.y)
}

/// Whether a point lies on an edge of a ring of points: on the stretch from one of the
/// points to the point that follows it, the last followed by the first.
pub open spec fn on_edge(point: Point, points: Seq<Point>) -> bool {
    exists|i: int|
        0 <= i < points.len() && on_stretch(
            point,
            #[trigger] points[i],
            points[(i + 1) % (points.len() as int)],
        )
}

/// Whether a point lies on the stretch from `from` to `to`.
#[verifier::spinoff_prover]
pub fn is_point_on_line_segment(point: &Point, from: &Point, to: &Point) -> (on: bool)
    ensures
        on == on_stretch(*point, *from, *to),
{
    let within_x = (from.x <= point.x && point.x <= to.x) || (to.x <= point.x && point.x <= from.x);
    let within_y = (from.y <= point.y && point.y <= to.y) || (to.y <= point.y && point.y <= from.y);
    if !within_x || !within_y {
        return false;
    }
    let rise: i64 = point.y as i64 - from.y as i64;
    let run: i64 = to.x as i64 - from.x as i64;
    let along: i64 = point.x as i64 - from.x as i64;
    let up: i64 = to.y as i64 - from.y as i64;
    assert(-0x1_0000_0000_0000_0000 <= rise * run <= 0x1_0000_0000_0000_0000)
        by (nonlinear_arith)
        requires
            -0xFFFF_FFFF <= rise <= 0xFFFF_FFFF,
            -0xFFFF_FFFF <= run <= 0xFFFF_FFFF,
    ;
    assert(-0x1_0000_0000_0000_0000 <= along * up <= 0x1_0000_0000_0000_0000)
        by (nonlinear_arith)
        requires
            -0xFFFF_FFFF <= along <= 0xFFFF_FFFF,
            -0xFFFF_FFFF <= up <= 0xFFFF_FFFF,
    ;
    let first: i128 = rise as i128 * run as i128;
    let second: i128 = along as i128 * up as i128;
    first == second
}

/// Whether a point lies on an edge of a ring of points.
pub fn is_point_on_edge(point: &Point, polygon_points: &Vec<Point>) -> (on: bool)
    ensures
        on == on_edge(*point, polygon_points@),
{
    let length = polygon_points.len();
    let mut index: usize = 0;
    while index < length
        invariant
            length == polygon_points.len(),
            index <= length,
            forall|i: int|
                0 <= i < index ==> !on_stretch(
                    *point,
                    #[trigger] polygon_points@[i],
                    polygon_points@[(i + 1) % (length as int)],
                ),
        decreases length - index,
    {
        let next: usize = if index + 1 == length {
            0
        } else {
            index + 1
        };
        proof {
            if index + 1 < length {
                vstd::arithmetic::div_mod::lemma_small_mod((index + 1) as nat, length as nat);
            } else {
                vstd::arithmetic::div_mod::lemma_mod_self_0(length as int);
            }
        }
        if is_point_on_line_segment(point, &polygon_points[index], &polygon_points[next]) {
            return true;
        }
        index = index + 1;
    }
    false
}


/// Whether the ray from a point towards larger x crosses the edge between two points of
/// a ring: whether the ends of the edge lie on different sides of the level of the point,
/// and the edge passes that level to the right of the point.
pub open spec fn crosses(point: Point, from: Point, to: Point) -> bool {
    ((from.y > point.y) != (to.y > point.y)) && if to.y > from.y {
        (point.x - from.x) * (to.y - from.y) < (to.x - from.x) * (point.y - from.y)
    } else {
        (point.x - from.x) * (to.y - from.y) > (to.x - from.x) * (point.y - from.y)
    }
}

/// The number of edges among the first `count` of a ring that the ray from a point
/// crosses; the edge of a point is the one that leads to it from the point before.
pub open spec fn crossings(point: Point, points: Seq<Point>, count: int) -> int
    decreases count,
{
    if count <= 0 {
        0
    } else {
        crossings(point, points, count - 1) + if crosses(
            point,
            points[count - 1],
            points[(count - 2 + points.len()) % (points.len() as int)],
        ) {
            1int
        } else {
            0int
        }
    }
}

/// Whether a point lies inside a ring of points or on an edge of it: on an edge, or
/// such that the ray from it crosses an odd number of edges.
pub open spec fn inside(point: Point, points: Seq<Point>) -> bool {
    on_edge(point, points) || crossings(point, points, points.len() as int) % 2 == 1
}

/// Whether the ray from a point crosses the edge between two points of a ring.
#[verifier::spinoff_prover]
fn ray_crosses(point: &Point, from: &Point, to: &Point) -> (crossed: bool)
    ensures
        crossed == crosses(*point, *from, *to),
{
    if (from.y > point.y) == (to.y > point.y) {
        return false;
    }
    let along: i64 = point.x as i64 - from.x as i64;
    let up: i64 = to.y as i64 - from.y as i64;
    let run: i64 = to.x as i64 - from.x as i64;
    let rise: i64 = point.y as i64 - from.y as i64;
    assert(-0x1_0000_0000_0000_0000 <= along * up <= 0x1_0000_0000_0000_0000) by (nonlinear_arith)
        requires
            -0xFFFF_FFFF <= along <= 0xFFFF_FFFF,
            -0xFFFF_FFFF <= up <= 0xFFFF_FFFF,
    ;
    assert(-0x1_0000_0000_0000_0000 <= run * rise <= 0x1_0000_0000_0000_0000) by (nonlinear_arith)
        requires
            -0xFFFF_FFFF <= run <= 0xFFFF_FFFF,
            -0xFFFF_FFFF <= rise <= 0xFFFF_FFFF,
    ;
    let left: i128 = along as i128 * up as i128;
    let right: i128 = run as i128 * rise as i128;
    if to.y > from.y {
        left < right
    } else {
        left > right
    }
}

/// Whether a point lies inside a ring of points or on an edge of it. Nothing lies
/// inside no points.
pub fn is_point_inside(point: &Point, points: &Vec<Point>) -> (within: bool)
    ensures
        within == inside(*point, points@),
{
    if is_point_on_edge(point, points) {
        return true;
    }
    let length = points.len();
    let mut odd = false;
    let mut index: usize = 0;
    while index < length
        invariant
            length == points.len(),
            index <= length,
            odd == (crossings(*point, points@, index as int) % 2 == 1),
        decreases length - index,
    {
        let before: usize = if index == 0 {
            length - 1
        } else {
            index - 1
        };
        proof {
            if index == 0 {
                vstd::arithmetic::div_mod::lemma_small_mod((length - 1) as nat, length as nat);
            } else {
                vstd::arithmetic::div_mod::lemma_mod_add_multiples_vanish(
                    index - 1,
                    length as int,
                );
                vstd::arithmetic::div_mod::lemma_small_mod((index - 1) as nat, length as nat);
            }
            assert((index - 1 + length) % (length as int) == before);
        }
        if ray_crosses(point, &points[index], &points[before]) {
            odd = !odd;
        }
        index = index + 1;
    }
    odd
}

/// Whether a point comes before another: further left, or as far left and further down.
pub open spec fn before(first: Point, second: Point) -> bool {
    first.x < second.x || (first.x == second.x && first.y < second.y)
}

/// Whether the point at `place` is the least of a list, and the first of those that are.
pub open spec fn is_least(points: Seq<Point>, place: int) -> bool {
    &&& 0 <= place < points.len()
    &&& forall|i: int| 0 <= i < points.len() ==> !before(#[trigger] points[i], points[place])
    &&& forall|i: int| 0 <= i < place ==> before(points[place], #[trigger] points[i])
}

/// A list turned so that the point at `place` comes first, and the points before it
/// follow the last.
pub open spec fn turned_to(points: Seq<Point>, place: int) -> Seq<Point> {
    points.skip(place) + points.take(place)
}

/// Turns the list so that its least point comes first: the one furthest left, and
/// furthest down among those; of several that are the same point, the first. An empty
/// list stays empty.
pub fn rotate_points_to_minimum(points: &mut Vec<Point>)
    ensures
        old(points)@.len() == 0 ==> final(points)@ == old(points)@,
        old(points)@.len() > 0 ==> exists|place: int|
            is_least(old(points)@, place) && final(points)@ == #[trigger] turned_to(
                old(points)@,
                place,
            ),
{
    let length = points.len();
    if length == 0 {
        return ;
    }
    let mut least: usize = 0;
    let mut index: usize = 1;
    while index < length
        invariant
            length == points.len(),
            *points == *old(points),
            1 <= index <= length,
            least < index,
            forall|i: int| 0 <= i < index ==> !before(#[trigger] points@[i], points@[least as int]),
            forall|i: int| 0 <= i < least ==> before(points@[least as int], #[trigger] points@[i]),
        decreases length - index,
    {
        let here = points[index];
        let best = points[least];
        if here.x < best.x || (here.x == best.x && here.y < best.y) {
            least = index;
        }
        index = index + 1;
    }
    let mut turned: Vec<Point> = Vec::new();
    let mut place: usize = least;
    while place < length
        invariant
            length == points.len(),
            *points == *old(points),
            least <= place <= length,
            turned@ == points@.subrange(least as int, place as int),
        decreases length - place,
    {
        turned.push(points[place]);
        assert(points@.subrange(least as int, place + 1) =~= points@.subrange(
            least as int,
            place as int,
        ).push(points@[place as int]));
        place = place + 1;
    }
    place = 0;
    while place < least
        invariant
            length == points.len(),
            *points == *old(points),
            place <= least < length,
            turned@ == points@.skip(least as int) + points@.take(place as int),
        decreases least - place,
    {
        turned.push(points[place]);
        assert(points@.take(place + 1) =~= points@.take(place as int).push(points@[place as int]));
        assert((points@.skip(least as int) + points@.take(place as int)).push(
            points@[place as int],
        ) =~= points@.skip(least as int) + points@.take(place + 1));
        place = place + 1;
    }
    proof {
        assert(is_least(old(points)@, least as int));
        assert(turned@ == turned_to(old(points)@, least as int));
    }
    *points = turned;
}

} // verus!
