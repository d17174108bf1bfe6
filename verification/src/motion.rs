use vstd::prelude::*;
use vstd::arithmetic::div_mod::{lemma_fundamental_div_mod, lemma_fundamental_div_mod_converse};
use crate::element::{Element, ElementView, Instance, InstanceView, Reference, ReferenceView};
use crate::cell::{Cell, CellView};
use crate::exact::{multiply, product, sum, sum_of_turns, total, turn_total};
use crate::order::places;
use crate::unwind::{expand_to, expanded, own_path, path_of};
use crate::flatten::{
    copies_in_grid, in_grid, lemma_views_concat, spread, spread_in_grid,
    unplaced, Placed, PlacedView, Placement,
};
use crate::library::Library;
use crate::traits::{lemma_views_push, views};
use crate::grid::Grid;
use crate::number::Real;
use crate::path::{Path, PathView};
use crate::text::{Text, TextView};
use crate::point::{is_coordinate, Point};
use crate::polygon::{Polygon, PolygonView};

verus! {

/// What one copy of a grid does to a point, where that can be said in whole database
/// units: the grid turns by whole degrees, enlarges by a whole number, and the lattice
/// point of the copy lies on whole units. The point is mirrored about the x axis if
/// `mirror` is set, then turned counter-clockwise about the origin of the coordinates by
/// `quarters` quarter turns, then enlarged by `factor`, then displaced by the offset: in
/// this order, which is the order in which every copy of every grid is made. `degrees` is
/// the angle of the grid as it stands, of which the quarter turns are what is left after
/// whole turns; a text or a reference that is turned adds it to its own angle.
///
/// Where the angle is no whole number of quarter turns, `quarters` is 4. Such a turn
/// leaves one point on the whole database units, the origin of the coordinates, which
/// the motion takes to its offset; it takes no other point anywhere.
#[derive(Debug, Clone, Copy, PartialEq, Eq, Structural)]
pub struct Motion {
    pub mirror: bool,
    pub quarters: u8,
    pub degrees: i32,
    pub factor: i32,
    pub offset_x: i64,
    pub offset_y: i64,
}

/// A point mirrored about the x axis, or left where it is.
pub open spec fn mirrored(point: (int, int), mirror: bool) -> (int, int) {
    if mirror {
        (point.0, -point.1)
    } else {
        point
    }
}

/// A point turned counter-clockwise about the origin of the coordinates by a number of
/// quarter turns from 0 to 3.
pub open spec fn turned(point: (int, int), quarters: int) -> (int, int) {
    if quarters == 0 {
        point
    } else if quarters == 1 {
        (-point.1, point.0)
    } else if quarters == 2 {
        (-point.0, -point.1)
    } else {
        (point.1, -point.0)
    }
}

/// A point moved away from the origin of the coordinates by a factor.
pub open spec fn enlarged(point: (int, int), factor: int) -> (int, int) {
    (factor * point.0, factor * point.1)
}

/// A point displaced.
pub open spec fn displaced(point: (int, int), offset: (int, int)) -> (int, int) {
    (point.0 + offset.0, point.1 + offset.1)
}

impl Motion {
    /// Whether the motion is as a motion must be: whether its quarter turns are 0 to 3,
    /// or 4 for a turn that is none of these.
    pub open spec fn well_formed(self) -> bool {
        self.quarters <= 4
    }

    /// Whether the motion turns by a whole number of quarter turns.
    pub open spec fn upright(self) -> bool {
        self.quarters <= 3
    }

    /// Where a motion by quarter turns takes a point: mirror, turn, enlarge, displace.
    pub open spec fn image(self, x: int, y: int) -> (int, int) {
        displaced(
            enlarged(
                turned(mirrored((x, y), self.mirror), self.quarters as int),
                self.factor as int,
            ),
            (self.offset_x as int, self.offset_y as int),
        )
    }

    /// Where the motion takes a point; `None` where that lies beyond thirty-two signed
    /// bits, or off the whole database units.
    #[verifier::spinoff_prover]
    pub fn apply(&self, point: Point) -> (moved: Option<Point>)
        requires
            self.well_formed(),
        ensures
            moved == if lands(*self, point) {
                Some(landing(*self, point))
            } else {
                None
            },
    {
        if self.quarters > 3 {
            if point.x == 0 && point.y == 0 && -0x8000_0000 <= self.offset_x && self.offset_x
                <= 0x7FFF_FFFF && -0x8000_0000 <= self.offset_y && self.offset_y <= 0x7FFF_FFFF {
                return Some(Point { x: self.offset_x as i32, y: self.offset_y as i32 });
            } else {
                return None;
            }
        }
        let x: i128 = point.x as i128;
        let y: i128 = if self.mirror {
            -(point.y as i128)
        } else {
            point.y as i128
        };
        let (turned_x, turned_y): (i128, i128) = if self.quarters == 0 {
            (x, y)
        } else if self.quarters == 1 {
            (-y, x)
        } else if self.quarters == 2 {
            (-x, -y)
        } else {
            (y, -x)
        };
        let factor: i128 = self.factor as i128;
        assert(-0x4000_0000_0000_0000 <= factor * turned_x <= 0x4000_0000_0000_0000)
            by (nonlinear_arith)
            requires
                -0x8000_0000 <= factor <= 0x7FFF_FFFF,
                -0x8000_0000 <= turned_x <= 0x8000_0000,
        ;
        assert(-0x4000_0000_0000_0000 <= factor * turned_y <= 0x4000_0000_0000_0000)
            by (nonlinear_arith)
            requires
                -0x8000_0000 <= factor <= 0x7FFF_FFFF,
                -0x8000_0000 <= turned_y <= 0x8000_0000,
        ;
        let image_x: i128 = factor * turned_x + self.offset_x as i128;
        let image_y: i128 = factor * turned_y + self.offset_y as i128;
        if image_x < -0x8000_0000 || image_x > 0x7FFF_FFFF || image_y < -0x8000_0000 || image_y
            > 0x7FFF_FFFF {
            None
        } else {
            Some(Point { x: image_x as i32, y: image_y as i32 })
        }
    }
}

/// The part of the way from `from` to `to` that `index` of `count` equal steps cover,
/// where that is a whole number.
pub open spec fn part_way(from: int, to: int, count: int, index: int) -> int {
    ((to - from) * index) / count
}

/// Whether `index` of `count` equal steps from `from` to `to` end on a whole number.
pub open spec fn whole_way(from: int, to: int, count: int, index: int) -> bool {
    ((to - from) * index) % count == 0
}

impl Placement {
    /// The motion that the copy makes, where it can be said in whole database units:
    /// where the copy is one of the grid, the angle is a whole number of degrees, the
    /// magnification is a whole number, and the lattice point of the copy lies on whole
    /// units: its column's share of the way to the one corner, and its row's share of
    /// the way to the other.
    pub open spec fn motion_spec(self) -> Option<Motion> {
        let grid = self.grid;
        if self.column < grid.columns && self.row < grid.rows && grid.angle.whole_spec() is Some
            && grid.magnification.whole_spec() is Some && whole_way(
            grid.origin.x as int,
            grid.corner_x.x as int,
            grid.columns as int,
            self.column as int,
        ) && whole_way(
            grid.origin.y as int,
            grid.corner_x.y as int,
            grid.columns as int,
            self.column as int,
        ) && whole_way(
            grid.origin.x as int,
            grid.corner_y.x as int,
            grid.rows as int,
            self.row as int,
        ) && whole_way(
            grid.origin.y as int,
            grid.corner_y.y as int,
            grid.rows as int,
            self.row as int,
        ) {
            Some(
                Motion {
                    mirror: grid.x_reflection,
                    quarters: if grid.angle.whole_spec()->Some_0 % 90 == 0 {
                        ((grid.angle.whole_spec()->Some_0 % 360) / 90) as u8
                    } else {
                        4
                    },
                    degrees: grid.angle.whole_spec()->Some_0 as i32,
                    factor: grid.magnification.whole_spec()->Some_0 as i32,
                    offset_x: (grid.origin.x + part_way(
                        grid.origin.x as int,
                        grid.corner_x.x as int,
                        grid.columns as int,
                        self.column as int,
                    ) + part_way(
                        grid.origin.x as int,
                        grid.corner_y.x as int,
                        grid.rows as int,
                        self.row as int,
                    )) as i64,
                    offset_y: (grid.origin.y + part_way(
                        grid.origin.y as int,
                        grid.corner_x.y as int,
                        grid.columns as int,
                        self.column as int,
                    ) + part_way(
                        grid.origin.y as int,
                        grid.corner_y.y as int,
                        grid.rows as int,
                        self.row as int,
                    )) as i64,
                },
            )
        } else {
            None
        }
    }

    /// The motion that the copy makes, where it can be said in whole database units.
    #[verifier::spinoff_prover]
    pub fn motion(&self) -> (motion: Option<Motion>)
        ensures
            motion == self.motion_spec(),
            motion matches Some(found) ==> found.well_formed(),
    {
        let grid = self.grid;
        if self.column >= grid.columns || self.row >= grid.rows {
            return None;
        }
        let degrees = match grid.angle.whole() {
            Some(degrees) => degrees,
            None => {
                return None;
            },
        };
        let factor = match grid.magnification.whole() {
            Some(factor) => factor,
            None => {
                return None;
            },
        };
        let quarters: u8 = if remainder(degrees as i64, 90) != 0 {
            4
        } else {
            (remainder(degrees as i64, 360) / 90) as u8
        };
        let columns: i64 = grid.columns as i64;
        let rows: i64 = grid.rows as i64;
        let column: i64 = self.column as i64;
        let row: i64 = self.row as i64;
        let across_x: i64 = grid.corner_x.x as i64 - grid.origin.x as i64;
        let across_y: i64 = grid.corner_x.y as i64 - grid.origin.y as i64;
        let up_x: i64 = grid.corner_y.x as i64 - grid.origin.x as i64;
        let up_y: i64 = grid.corner_y.y as i64 - grid.origin.y as i64;
        match (
            step(across_x, columns, column),
            step(across_y, columns, column),
            step(up_x, rows, row),
            step(up_y, rows, row),
        ) {
            (Some(first_x), Some(first_y), Some(second_x), Some(second_y)) => Some(
                Motion {
                    mirror: grid.x_reflection,
                    quarters,
                    degrees,
                    factor,
                    offset_x: grid.origin.x as i64 + first_x + second_x,
                    offset_y: grid.origin.y as i64 + first_y + second_y,
                },
            ),
            _ => None,
        }
    }
}

/// The remainder of a number on division by a positive one, never negative.
#[verifier::spinoff_prover]
pub fn remainder(value: i64, modulus: i64) -> (rest: i64)
    requires
        modulus > 0,
        value > i64::MIN,
    ensures
        rest == (value as int) % (modulus as int),
        0 <= rest < modulus,
{
    if value >= 0 {
        value % modulus
    } else {
        let size: i64 = -value;
        let left: i64 = size % modulus;
        let quotient: i64 = size / modulus;
        proof {
            lemma_fundamental_div_mod(size as int, modulus as int);
            if left == 0 {
                assert(value == (-quotient) * modulus + 0) by (nonlinear_arith)
                    requires
                        size == modulus * quotient + left,
                        left == 0,
                        value == -size,
                ;
                lemma_fundamental_div_mod_converse(value as int, modulus as int, -quotient, 0);
            } else {
                assert(value == (-quotient - 1) * modulus + (modulus - left)) by (nonlinear_arith)
                    requires
                        size == modulus * quotient + left,
                        value == -size,
                ;
                lemma_fundamental_div_mod_converse(
                    value as int,
                    modulus as int,
                    -quotient - 1,
                    modulus - left,
                );
            }
        }
        if left == 0 {
            0
        } else {
            modulus - left
        }
    }
}

/// One of `count` equal parts of a way that `count` divides.
#[verifier::spinoff_prover]
pub fn exact_part(way: i64, count: i64) -> (part: i64)
    requires
        -0x1_0000_0000 <= way <= 0x1_0000_0000,
        0 < count,
        (way as int) % (count as int) == 0,
    ensures
        part == (way as int) / (count as int),
        part * count == way,
        -0x1_0000_0000 <= part <= 0x1_0000_0000,
{
    let size: i64 = if way >= 0 {
        way
    } else {
        -way
    };
    let some: i64 = size / count;
    let one: i64 = if way >= 0 {
        some
    } else {
        -some
    };
    proof {
        lemma_fundamental_div_mod(way as int, count as int);
        lemma_fundamental_div_mod(size as int, count as int);
        let exact = way as int / count as int;
        assert(way == count * exact);
        if way < 0 {
            assert(size == (-exact) * count + 0) by (nonlinear_arith)
                requires
                    way == count * exact,
                    size == -way,
            ;
            lemma_fundamental_div_mod_converse(size as int, count as int, -exact, 0);
        }
        assert(one == exact);
        assert(one * count == way) by (nonlinear_arith)
            requires
                way == count * one,
        ;
        assert(-0x1_0000_0000 <= one <= 0x1_0000_0000) by (nonlinear_arith)
            requires
                way == count * one,
                0 < count,
                -0x1_0000_0000 <= way <= 0x1_0000_0000,
        ;
    }
    one
}

/// The part of a way that `index` of `count` equal steps cover; `None` where that is no
/// whole number.
#[verifier::spinoff_prover]
pub fn step(way: i64, count: i64, index: i64) -> (part: Option<i64>)
    requires
        -0x1_0000_0000 <= way <= 0x1_0000_0000,
        0 <= index < count <= 0xFFFF_FFFF,
    ensures
        part.is_some() == (((way as int) * (index as int)) % (count as int) == 0),
        part matches Some(found) ==> found == ((way as int) * (index as int)) / (count as int)
            && -0x1_0000_0000 <= found <= 0x1_0000_0000,
{
    let length: i128 = if way < 0 {
        -(way as i128)
    } else {
        way as i128
    };
    assert(0 <= length * (index as i128) <= 0x1_0000_0000 * 0xFFFF_FFFF) by (nonlinear_arith)
        requires
            0 <= length <= 0x1_0000_0000,
            0 <= index <= 0xFFFF_FFFF,
    ;
    let size: i128 = length * (index as i128);
    proof {
        assert(size as int == if way < 0 {
            -((way as int) * (index as int))
        } else {
            (way as int) * (index as int)
        }) by (nonlinear_arith)
            requires
                size as int == (length as int) * (index as int),
                length as int == if way < 0 {
                    -(way as int)
                } else {
                    way as int
                },
        ;
        crate::scaling::lemma_negative_divides(size as int, count as int);
    }
    if size % (count as i128) != 0 {
        return None;
    }
    let part: i128 = size / (count as i128);
    proof {
        lemma_fundamental_div_mod(size as int, count as int);
        assert(0 <= part <= length) by (nonlinear_arith)
            requires
                size == (count as int) * part,
                size == length * (index as int),
                0 <= index < count,
                0 <= length,
        ;
    }
    if way < 0 {
        Some((-part) as i64)
    } else {
        Some(part as i64)
    }
}

/// Where a count divides a way, the share of any number of steps is whole: so many
/// times one step.
pub proof fn lemma_part_of_whole(way: int, count: int, index: int)
    requires
        count > 0,
        way % count == 0,
    ensures
        (way * index) % count == 0,
        (way * index) / count == way / count * index,
{
    lemma_fundamental_div_mod(way, count);
    let one = way / count;
    assert(way * index == count * (one * index)) by (nonlinear_arith)
        requires
            way == count * one,
    ;
    crate::grid::lemma_exact_part(count, one * index);
}

/// Whether a motion takes a point to whole database units that coordinates of
/// thirty-two signed bits reach. A motion that turns by no whole number of quarter turns
/// takes the origin of the coordinates alone.
pub open spec fn lands(motion: Motion, point: Point) -> bool {
    if motion.upright() {
        is_coordinate(motion.image(point.x as int, point.y as int).0) && is_coordinate(
            motion.image(point.x as int, point.y as int).1,
        )
    } else {
        point.x == 0 && point.y == 0 && is_coordinate(motion.offset_x as int) && is_coordinate(
            motion.offset_y as int,
        )
    }
}

/// Where a motion takes a point, as a point.
pub open spec fn landing(motion: Motion, point: Point) -> Point {
    if motion.upright() {
        Point {
            x: motion.image(point.x as int, point.y as int).0 as i32,
            y: motion.image(point.x as int, point.y as int).1 as i32,
        }
    } else {
        Point { x: motion.offset_x as i32, y: motion.offset_y as i32 }
    }
}

/// The points as one motion takes them; `None` where it takes one of them beyond
/// thirty-two signed bits.
pub open spec fn points_through(points: Seq<Point>, motion: Motion) -> Option<Seq<Point>> {
    if forall|i: int| 0 <= i < points.len() ==> lands(motion, #[trigger] points[i]) {
        Some(Seq::new(points.len(), |i: int| landing(motion, points[i])))
    } else {
        None
    }
}

/// The points as the copies take them, the first copy first; `None` where a copy
/// cannot be said in whole database units, or takes a point beyond thirty-two signed
/// bits.
pub open spec fn points_through_all(points: Seq<Point>, placements: Seq<Placement>) -> Option<
    Seq<Point>,
>
    decreases placements.len(),
{
    if placements.len() == 0 {
        Some(points)
    } else {
        match points_through_all(points, placements.drop_last()) {
            None => None,
            Some(before) => match placements.last().motion_spec() {
                None => None,
                Some(motion) => points_through(before, motion),
            },
        }
    }
}

/// A placed polygon or path as it lies in the end, with every copy applied to its
/// points; `None` for a text and for a reference, and where the points have no image in
/// whole database units.
pub open spec fn shape_resolved(placed: PlacedView) -> Option<ElementView> {
    match placed.element {
        ElementView::Polygon(polygon) => match points_through_all(
            polygon.points,
            placed.placements,
        ) {
            Some(points) => Some(ElementView::Polygon(PolygonView { points, ..polygon })),
            None => None,
        },
        ElementView::Path(path) => match points_through_all(path.points, placed.placements) {
            Some(points) => Some(ElementView::Path(PathView { points, ..path })),
            None => None,
        },
        _ => None,
    }
}

/// The points as one motion takes them.
pub fn move_points_through(points: &Vec<Point>, motion: &Motion) -> (moved: Option<Vec<Point>>)
    requires
        motion.well_formed(),
    ensures
        match moved {
            Some(list) => points_through(points@, *motion) == Some(list@),
            None => points_through(points@, *motion).is_none(),
        },
{
    let mut list: Vec<Point> = Vec::new();
    let mut index: usize = 0;
    while index < points.len()
        invariant
            index <= points.len(),
            motion.well_formed(),
            list@.len() == index,
            forall|i: int| 0 <= i < index ==> lands(*motion, #[trigger] points@[i]),
            forall|i: int| 0 <= i < index ==> list@[i] == landing(*motion, points@[i]),
        decreases points.len() - index,
    {
        match motion.apply(points[index]) {
            Some(point) => {
                list.push(point);
            },
            None => {
                assert(!lands(*motion, points@[index as int]));
                return None;
            },
        }
        index = index + 1;
    }
    assert(list@ =~= Seq::new(points@.len(), |i: int| landing(*motion, points@[i])));
    Some(list)
}

/// The points as the copies take them, the first copy first.
pub fn move_points_through_all(points: &Vec<Point>, placements: &Vec<Placement>) -> (moved: Option<
    Vec<Point>,
>)
    ensures
        match moved {
            Some(list) => points_through_all(points@, placements@) == Some(list@),
            None => points_through_all(points@, placements@).is_none(),
        },
{
    let mut list = crate::point::copy_points(points);
    let mut index: usize = 0;
    proof {
        assert(placements@.take(0) =~= Seq::<Placement>::empty());
    }
    while index < placements.len()
        invariant
            index <= placements.len(),
            points_through_all(points@, placements@.take(index as int)) == Some(list@),
        decreases placements.len() - index,
    {
        proof {
            let next = placements@.take(index + 1);
            assert(next.drop_last() =~= placements@.take(index as int));
            assert(next.last() == placements@[index as int]);
        }
        let motion = match placements[index].motion() {
            Some(motion) => motion,
            None => {
                proof {
                    lemma_through_fails(points@, placements@, index + 1);
                }
                return None;
            },
        };
        match move_points_through(&list, &motion) {
            Some(after) => {
                list = after;
            },
            None => {
                proof {
                    lemma_through_fails(points@, placements@, index + 1);
                }
                return None;
            },
        }
        index = index + 1;
    }
    proof {
        assert(placements@.take(placements.len() as int) =~= placements@);
    }
    Some(list)
}

/// Points that the first copies cannot take anywhere are taken nowhere by all of them.
pub proof fn lemma_through_fails(points: Seq<Point>, placements: Seq<Placement>, count: int)
    requires
        0 <= count <= placements.len(),
        points_through_all(points, placements.take(count)).is_none(),
    ensures
        points_through_all(points, placements).is_none(),
    decreases placements.len() - count,
{
    if count == placements.len() {
        assert(placements.take(count) =~= placements);
    } else {
        let next = placements.take(count + 1);
        assert(next.drop_last() =~= placements.take(count));
        lemma_through_fails(points, placements, count + 1);
    }
}

impl Placed {
    /// The placed polygon or path as it lies in the end, with every copy applied to
    /// its points: for each copy, innermost first, mirror, turn, enlarge, displace.
    pub fn resolve_shape(&self) -> (element: Option<Element>)
        ensures
            match element {
                Some(found) => shape_resolved(self@) == Some(found@),
                None => shape_resolved(self@).is_none(),
            },
    {
        match &self.element {
            Element::Polygon(polygon) => {
                match move_points_through_all(&polygon.points, &self.placements) {
                    Some(points) => Some(
                        Element::Polygon(
                            Polygon { points, layer: polygon.layer, data_type: polygon.data_type },
                        ),
                    ),
                    None => None,
                }
            },
            Element::Path(path) => {
                match move_points_through_all(&path.points, &self.placements) {
                    Some(points) => Some(
                        Element::Path(
                            Path {
                                points,
                                layer: path.layer,
                                data_type: path.data_type,
                                path_type: path.path_type,
                                width: path.width,
                            },
                        ),
                    ),
                    None => None,
                }
            },
            _ => None,
        }
    }
}

/// A grid of one column and one row that neither mirrors nor turns nor enlarges
/// displaces a point by its origin and does nothing else.
#[verifier::spinoff_prover]
pub proof fn lemma_plain_motion(placement: Placement, x: int, y: int)
    requires
        placement.column == 0,
        placement.row == 0,
        placement.grid.columns == 1,
        placement.grid.rows == 1,
        placement.grid.angle.bits == 0,
        placement.grid.magnification.bits == crate::number::ONE_BITS,
        !placement.grid.x_reflection,
    ensures
        placement.motion_spec() is Some,
        placement.motion_spec()->Some_0.image(x, y) == (
            x + placement.grid.origin.x,
            y + placement.grid.origin.y,
        ),
{
    let grid = placement.grid;
    assert(grid.angle.zero_spec());
    assert(grid.angle.whole_spec() == Some(0int));
    vstd::arithmetic::power2::lemma2_to64_rest();
    assert(grid.magnification.biased_exponent() == 1023);
    assert(grid.magnification.significand() == 0x10_0000_0000_0000);
    assert(vstd::arithmetic::power2::pow2(52) == 0x10_0000_0000_0000);
    assert(!grid.magnification.zero_spec());
    assert(!grid.magnification.negative());
    assert((1075 - grid.magnification.biased_exponent()) as nat == 52);
    let unit = vstd::arithmetic::power2::pow2(
        (1075 - grid.magnification.biased_exponent()) as nat,
    ) as int;
    assert(unit == 0x10_0000_0000_0000);
    assert(grid.magnification.significand() % unit == 0);
    assert(grid.magnification.significand() / unit == 1);
    assert(grid.magnification.whole_spec() == Some(1int));
    let motion = placement.motion_spec()->Some_0;
    assert(motion.factor == 1 && motion.quarters == 0 && !motion.mirror);
    assert(motion.offset_x == grid.origin.x);
    assert(motion.offset_y == grid.origin.y);
}


/// A way that a count divides is the count times one of its parts.
pub proof fn lemma_whole_parts(way: int, count: int)
    requires
        count > 0,
        way % count == 0,
    ensures
        way / count * count == way,
{
    lemma_fundamental_div_mod(way, count);
    assert(way / count * count == count * (way / count)) by (nonlinear_arith);
}

/// The copies of a grid that was made from spacings lie where the spacings put them:
/// the copy of a column and a row is displaced by the origin and by so many spacings
/// along the columns and so many along the rows, the sum turned by the grid's quarter
/// turns.
pub proof fn lemma_lattice_point(
    origin: Point,
    columns: u32,
    rows: u32,
    spacing_x: Point,
    spacing_y: Point,
    magnification: crate::number::Real,
    angle: crate::number::Real,
    x_reflection: bool,
    column: u32,
    row: u32,
)
    requires
        column < columns,
        row < rows,
        magnification.whole_spec() is Some,
        crate::grid::quarters_of(angle) is Some,
        crate::grid::Grid::with_spacing_spec(
            origin,
            columns,
            rows,
            spacing_x,
            spacing_y,
            magnification,
            angle,
            x_reflection,
        ) is Some,
    ensures
        ({
            let grid = crate::grid::Grid::with_spacing_spec(
                origin,
                columns,
                rows,
                spacing_x,
                spacing_y,
                magnification,
                angle,
                x_reflection,
            )->Some_0;
            let motion = (Placement { grid, column, row }).motion_spec();
            let quarters = crate::grid::quarters_of(angle)->Some_0;
            let way = turned(
                (
                    column * spacing_x.x + row * spacing_y.x,
                    column * spacing_x.y + row * spacing_y.y,
                ),
                quarters,
            );
            &&& motion is Some
            &&& motion->Some_0.quarters == quarters
            &&& motion->Some_0.mirror == x_reflection
            &&& motion->Some_0.factor == magnification.whole_spec()->Some_0
            &&& motion->Some_0.offset_x == origin.x + way.0
            &&& motion->Some_0.offset_y == origin.y + way.1
        }),
{
    let grid = crate::grid::Grid::with_spacing_spec(
        origin,
        columns,
        rows,
        spacing_x,
        spacing_y,
        magnification,
        angle,
        x_reflection,
    )->Some_0;
    let quarters = crate::grid::quarters_of(angle)->Some_0;
    assert(0 <= quarters <= 3);
    let many = columns as int;
    let tall = rows as int;
    crate::grid::lemma_exact_part(many, spacing_x.x as int);
    crate::grid::lemma_exact_part(many, spacing_x.y as int);
    crate::grid::lemma_exact_part(many, -spacing_x.x as int);
    crate::grid::lemma_exact_part(many, -spacing_x.y as int);
    crate::grid::lemma_exact_part(tall, spacing_y.x as int);
    crate::grid::lemma_exact_part(tall, spacing_y.y as int);
    crate::grid::lemma_exact_part(tall, -spacing_y.x as int);
    crate::grid::lemma_exact_part(tall, -spacing_y.y as int);
    crate::grid::lemma_negated(many, spacing_x.x as int);
    crate::grid::lemma_negated(many, spacing_x.y as int);
    crate::grid::lemma_negated(tall, spacing_y.x as int);
    crate::grid::lemma_negated(tall, spacing_y.y as int);
    let index = column as int;
    let level = row as int;
    assert((-spacing_x.x) * index == -(spacing_x.x * index)) by (nonlinear_arith);
    assert((-spacing_x.y) * index == -(spacing_x.y * index)) by (nonlinear_arith);
    assert((-spacing_y.x) * level == -(spacing_y.x * level)) by (nonlinear_arith);
    assert((-spacing_y.y) * level == -(spacing_y.y * level)) by (nonlinear_arith);
    assert(spacing_x.x * index == index * spacing_x.x) by (nonlinear_arith);
    assert(spacing_x.y * index == index * spacing_x.y) by (nonlinear_arith);
    assert(spacing_y.x * level == level * spacing_y.x) by (nonlinear_arith);
    assert(spacing_y.y * level == level * spacing_y.y) by (nonlinear_arith);
    let placement = Placement { grid, column, row };
    lemma_part_of_whole((grid.corner_x.x - origin.x) as int, many, index);
    lemma_part_of_whole((grid.corner_x.y - origin.y) as int, many, index);
    lemma_part_of_whole((grid.corner_y.x - origin.x) as int, tall, level);
    lemma_part_of_whole((grid.corner_y.y - origin.y) as int, tall, level);
    assert(placement.motion_spec() is Some);
    let motion = placement.motion_spec()->Some_0;
    let across_x = part_way(origin.x as int, grid.corner_x.x as int, many, index);
    let across_y = part_way(origin.y as int, grid.corner_x.y as int, many, index);
    let up_x = part_way(origin.x as int, grid.corner_y.x as int, tall, level);
    let up_y = part_way(origin.y as int, grid.corner_y.y as int, tall, level);
    if quarters == 0 {
        assert(across_x == spacing_x.x * index && across_y == spacing_x.y * index);
        assert(up_x == spacing_y.x * level && up_y == spacing_y.y * level);
    } else if quarters == 1 {
        assert(across_x == (-spacing_x.y) * index && across_y == spacing_x.x * index);
        assert(up_x == (-spacing_y.y) * level && up_y == spacing_y.x * level);
    } else if quarters == 2 {
        assert(across_x == (-spacing_x.x) * index && across_y == (-spacing_x.y) * index);
        assert(up_x == (-spacing_y.x) * level && up_y == (-spacing_y.y) * level);
    } else {
        assert(across_x == spacing_x.y * index && across_y == (-spacing_x.x) * index);
        assert(up_x == spacing_y.y * level && up_y == (-spacing_y.x) * level);
    }
    lemma_whole_parts((grid.corner_x.x - origin.x) as int, many);
    lemma_whole_parts((grid.corner_x.y - origin.y) as int, many);
    lemma_whole_parts((grid.corner_y.x - origin.x) as int, tall);
    lemma_whole_parts((grid.corner_y.y - origin.y) as int, tall);
    assert(-0x1_0000_0000 <= grid.corner_x.x - origin.x <= 0x1_0000_0000);
    assert(-0x2_0000_0000 <= across_x <= 0x2_0000_0000) by (nonlinear_arith)
        requires
            across_x == (grid.corner_x.x - origin.x) / many * index,
            (grid.corner_x.x - origin.x) / many * many == grid.corner_x.x - origin.x,
            0 <= index < many,
            -0x1_0000_0000 <= grid.corner_x.x - origin.x <= 0x1_0000_0000,
    ;
    assert(-0x2_0000_0000 <= across_y <= 0x2_0000_0000) by (nonlinear_arith)
        requires
            across_y == (grid.corner_x.y - origin.y) / many * index,
            (grid.corner_x.y - origin.y) / many * many == grid.corner_x.y - origin.y,
            0 <= index < many,
            -0x1_0000_0000 <= grid.corner_x.y - origin.y <= 0x1_0000_0000,
    ;
    assert(-0x2_0000_0000 <= up_x <= 0x2_0000_0000) by (nonlinear_arith)
        requires
            up_x == (grid.corner_y.x - origin.x) / tall * level,
            (grid.corner_y.x - origin.x) / tall * tall == grid.corner_y.x - origin.x,
            0 <= level < tall,
            -0x1_0000_0000 <= grid.corner_y.x - origin.x <= 0x1_0000_0000,
    ;
    assert(-0x2_0000_0000 <= up_y <= 0x2_0000_0000) by (nonlinear_arith)
        requires
            up_y == (grid.corner_y.y - origin.y) / tall * level,
            (grid.corner_y.y - origin.y) / tall * tall == grid.corner_y.y - origin.y,
            0 <= level < tall,
            -0x1_0000_0000 <= grid.corner_y.y - origin.y <= 0x1_0000_0000,
    ;
    crate::number::lemma_whole_range(magnification);
    assert(motion.factor == magnification.whole_spec()->Some_0);
    assert(motion.mirror == x_reflection);
    assert(motion.offset_x == origin.x + across_x + up_x);
    assert(motion.offset_y == origin.y + across_y + up_y);
    assert(motion.quarters == quarters);
    let sum_x = index * spacing_x.x + level * spacing_y.x;
    let sum_y = index * spacing_x.y + level * spacing_y.y;
    let way = turned((sum_x, sum_y), quarters);
    if quarters == 0 {
        assert(way.0 == across_x + up_x && way.1 == across_y + up_y);
    } else if quarters == 1 {
        assert(way.0 == across_x + up_x && way.1 == across_y + up_y);
    } else if quarters == 2 {
        assert(way.0 == across_x + up_x && way.1 == across_y + up_y);
    } else {
        assert(way.0 == across_x + up_x && way.1 == across_y + up_y);
    }
}


/// The remainder with the sign of the value, as signed numbers and doubles have it.
pub open spec fn signed_rest(value: int, modulus: int) -> int {
    if value >= 0 {
        value % modulus
    } else {
        -((-value) % modulus)
    }
}

/// The remainder with the sign of the value.
pub fn signed_rest_of(value: i64, modulus: i64) -> (rest: i64)
    requires
        modulus > 0,
        value > i64::MIN,
    ensures
        rest == signed_rest(value as int, modulus as int),
        -modulus < rest < modulus,
{
    if value >= 0 {
        value % modulus
    } else {
        -((-value) % modulus)
    }
}

/// Whether a whole number is one that a double of the library's whole numbers holds.
pub open spec fn whole_sized(value: int) -> bool {
    -0x8000_0000 < value < 0x8000_0000
}

/// A text as one copy of a grid shows it, where that can be said exactly: where the
/// copy has a motion that takes the origin somewhere, and the angle and the
/// magnification that follow can be said without rounding. The angle is negated, and
/// cut to less than a turn, if the copy mirrors, which asks for a whole angle; then it
/// grows by the angle of the grid. The magnification is multiplied by that of the grid.
pub open spec fn text_through(text: TextView, placement: Placement) -> Option<TextView> {
    match placement.motion_spec() {
        Some(motion) => {
            let turned = if motion.mirror {
                match text.angle.whole_spec() {
                    Some(angle) => if whole_sized(signed_rest(-angle, 360) + motion.degrees) {
                        Some(Real::of_whole(signed_rest(-angle, 360) + motion.degrees))
                    } else {
                        None
                    },
                    None => None,
                }
            } else {
                total(text.angle, placement.grid.angle)
            };
            match (turned, product(text.magnification, placement.grid.magnification)) {
                (Some(angle), Some(magnification)) => if lands(motion, text.origin) {
                    Some(
                        TextView {
                            origin: landing(motion, text.origin),
                            angle,
                            magnification,
                            ..text
                        },
                    )
                } else {
                    None
                },
                _ => None,
            }
        },
        None => None,
    }
}

/// A text as the copies show it, the first copy first.
pub open spec fn text_through_all(text: TextView, placements: Seq<Placement>) -> Option<TextView>
    decreases placements.len(),
{
    if placements.len() == 0 {
        Some(text)
    } else {
        match text_through_all(text, placements.drop_last()) {
            None => None,
            Some(before) => text_through(before, placements.last()),
        }
    }
}

/// A reference as one copy of a grid shows it, where that can be said exactly. The
/// corners of its grid go where the motion takes them, but for the mirror: a mirrored
/// copy flips the mirror of the grid and leaves its corners. The angle of the grid grows
/// by that of the copy and is kept from 0 up to 360; its magnification is multiplied.
pub open spec fn reference_through(reference: ReferenceView, placement: Placement) -> Option<
    ReferenceView,
> {
    let grid = reference.grid;
    match (
        placement.motion_spec(),
        turn_total(grid.angle, placement.grid.angle),
        product(grid.magnification, placement.grid.magnification),
    ) {
        (Some(motion), Some(angle), Some(magnification)) => {
            let plain = Motion { mirror: false, ..motion };
            if lands(plain, grid.origin) && lands(plain, grid.corner_x) && lands(
                plain,
                grid.corner_y,
            ) {
                Some(
                    ReferenceView {
                        grid: Grid {
                            origin: landing(plain, grid.origin),
                            corner_x: landing(plain, grid.corner_x),
                            corner_y: landing(plain, grid.corner_y),
                            magnification,
                            angle,
                            x_reflection: grid.x_reflection != motion.mirror,
                            ..grid
                        },
                        ..reference
                    },
                )
            } else {
                None
            }
        },
        _ => None,
    }
}

/// A reference as the copies show it, the first copy first.
pub open spec fn reference_through_all(
    reference: ReferenceView,
    placements: Seq<Placement>,
) -> Option<ReferenceView>
    decreases placements.len(),
{
    if placements.len() == 0 {
        Some(reference)
    } else {
        match reference_through_all(reference, placements.drop_last()) {
            None => None,
            Some(before) => reference_through(before, placements.last()),
        }
    }
}

/// A placed element as it lies in the end, with every copy applied to it, the innermost
/// first; `None` where a copy cannot be applied in whole numbers.
pub open spec fn resolved(placed: PlacedView) -> Option<ElementView> {
    match placed.element {
        ElementView::Text(text) => match text_through_all(text, placed.placements) {
            Some(found) => Some(ElementView::Text(found)),
            None => None,
        },
        ElementView::Reference(reference) => match reference_through_all(
            reference,
            placed.placements,
        ) {
            Some(found) => Some(ElementView::Reference(found)),
            None => None,
        },
        _ => shape_resolved(placed),
    }
}

/// A text as one copy of a grid shows it.
pub fn move_text(text: &Text, placement: &Placement) -> (moved: Option<Text>)
    ensures
        match moved {
            Some(found) => text_through(text@, *placement) == Some(found@),
            None => text_through(text@, *placement).is_none(),
        },
{
    let motion = match placement.motion() {
        Some(motion) => motion,
        None => {
            return None;
        },
    };
    let turned = if motion.mirror {
        match text.angle.whole() {
            Some(angle) => {
                let both: i64 = signed_rest_of(-(angle as i64), 360) + motion.degrees as i64;
                if both <= -0x8000_0000 || both >= 0x8000_0000 {
                    None
                } else {
                    Some(Real::from_whole(both as i32))
                }
            },
            None => None,
        }
    } else {
        sum(text.angle, placement.grid.angle)
    };
    let enlarged = multiply(text.magnification, placement.grid.magnification);
    match (turned, enlarged, motion.apply(text.origin)) {
        (Some(angle), Some(magnification), Some(origin)) => Some(
            Text {
                text: text.text.clone(),
                origin,
                layer: text.layer,
                magnification,
                angle,
                x_reflection: text.x_reflection,
                vertical_presentation: text.vertical_presentation,
                horizontal_presentation: text.horizontal_presentation,
            },
        ),
        _ => None,
    }
}

/// A reference as one copy of a grid shows it.
pub fn move_reference(reference: &Reference, placement: &Placement) -> (moved: Option<Reference>)
    ensures
        match moved {
            Some(found) => reference_through(reference@, *placement) == Some(found@),
            None => reference_through(reference@, *placement).is_none(),
        },
{
    let grid = reference.grid;
    let motion = match placement.motion() {
        Some(motion) => motion,
        None => {
            return None;
        },
    };
    let plain = Motion { mirror: false, ..motion };
    match (
        sum_of_turns(grid.angle, placement.grid.angle),
        multiply(grid.magnification, placement.grid.magnification),
        plain.apply(grid.origin),
        plain.apply(grid.corner_x),
        plain.apply(grid.corner_y),
    ) {
        (Some(angle), Some(magnification), Some(origin), Some(corner_x), Some(corner_y)) => Some(
            Reference {
                instance: reference.instance.copy(),
                grid: Grid {
                    origin,
                    columns: grid.columns,
                    rows: grid.rows,
                    corner_x,
                    corner_y,
                    magnification,
                    angle,
                    x_reflection: grid.x_reflection != motion.mirror,
                },
            },
        ),
        _ => None,
    }
}

/// A text that the first copies cannot show is shown by none of them all.
pub proof fn lemma_text_fails(text: TextView, placements: Seq<Placement>, count: int)
    requires
        0 <= count <= placements.len(),
        text_through_all(text, placements.take(count)).is_none(),
    ensures
        text_through_all(text, placements).is_none(),
    decreases placements.len() - count,
{
    if count == placements.len() {
        assert(placements.take(count) =~= placements);
    } else {
        let next = placements.take(count + 1);
        assert(next.drop_last() =~= placements.take(count));
        lemma_text_fails(text, placements, count + 1);
    }
}

/// A reference that the first copies cannot show is shown by none of them all.
pub proof fn lemma_reference_fails(
    reference: ReferenceView,
    placements: Seq<Placement>,
    count: int,
)
    requires
        0 <= count <= placements.len(),
        reference_through_all(reference, placements.take(count)).is_none(),
    ensures
        reference_through_all(reference, placements).is_none(),
    decreases placements.len() - count,
{
    if count == placements.len() {
        assert(placements.take(count) =~= placements);
    } else {
        let next = placements.take(count + 1);
        assert(next.drop_last() =~= placements.take(count));
        lemma_reference_fails(reference, placements, count + 1);
    }
}

/// A text as the copies show it, the first copy first.
pub fn move_text_through_all(text: &Text, placements: &Vec<Placement>) -> (moved: Option<Text>)
    ensures
        match moved {
            Some(found) => text_through_all(text@, placements@) == Some(found@),
            None => text_through_all(text@, placements@).is_none(),
        },
{
    let mut found = text.copy();
    let mut index: usize = 0;
    proof {
        assert(placements@.take(0) =~= Seq::<Placement>::empty());
    }
    while index < placements.len()
        invariant
            index <= placements.len(),
            text_through_all(text@, placements@.take(index as int)) == Some(found@),
        decreases placements.len() - index,
    {
        proof {
            let next = placements@.take(index + 1);
            assert(next.drop_last() =~= placements@.take(index as int));
            assert(next.last() == placements@[index as int]);
        }
        match move_text(&found, &placements[index]) {
            Some(after) => {
                found = after;
            },
            None => {
                proof {
                    lemma_text_fails(text@, placements@, index + 1);
                }
                return None;
            },
        }
        index = index + 1;
    }
    proof {
        assert(placements@.take(placements.len() as int) =~= placements@);
    }
    Some(found)
}

/// A reference as the copies show it, the first copy first.
pub fn move_reference_through_all(reference: &Reference, placements: &Vec<Placement>) -> (moved:
    Option<Reference>)
    ensures
        match moved {
            Some(found) => reference_through_all(reference@, placements@) == Some(found@),
            None => reference_through_all(reference@, placements@).is_none(),
        },
{
    let mut found = reference.copy();
    let mut index: usize = 0;
    proof {
        assert(placements@.take(0) =~= Seq::<Placement>::empty());
    }
    while index < placements.len()
        invariant
            index <= placements.len(),
            reference_through_all(reference@, placements@.take(index as int)) == Some(found@),
        decreases placements.len() - index,
    {
        proof {
            let next = placements@.take(index + 1);
            assert(next.drop_last() =~= placements@.take(index as int));
            assert(next.last() == placements@[index as int]);
        }
        match move_reference(&found, &placements[index]) {
            Some(after) => {
                found = after;
            },
            None => {
                proof {
                    lemma_reference_fails(reference@, placements@, index + 1);
                }
                return None;
            },
        }
        index = index + 1;
    }
    proof {
        assert(placements@.take(placements.len() as int) =~= placements@);
    }
    Some(found)
}

impl Placed {
    /// The placed element as it lies in the end, with every copy applied to it, the
    /// innermost first: for each copy mirror, turn, enlarge, displace. `None` where a
    /// copy cannot be applied in whole numbers; such an element is left to arithmetic
    /// with doubles.
    pub fn resolve(&self) -> (element: Option<Element>)
        ensures
            match element {
                Some(found) => resolved(self@) == Some(found@),
                None => resolved(self@).is_none(),
            },
    {
        match &self.element {
            Element::Text(text) => match move_text_through_all(text, &self.placements) {
                Some(found) => Some(Element::Text(found)),
                None => None,
            },
            Element::Reference(reference) => match move_reference_through_all(
                reference,
                &self.placements,
            ) {
                Some(found) => Some(Element::Reference(found)),
                None => None,
            },
            _ => self.resolve_shape(),
        }
    }
}


/// The placed elements as they lie in the end, in order; `None` where one of them cannot
/// be resolved.
pub open spec fn every_resolved(list: Seq<PlacedView>) -> Option<Seq<ElementView>>
    decreases list.len(),
{
    if list.len() == 0 {
        Some(Seq::empty())
    } else {
        match (every_resolved(list.drop_last()), resolved(list.last())) {
            (Some(before), Some(element)) => Some(before.push(element)),
            _ => None,
        }
    }
}

/// What the references of a list stand for, one after the other, without regard to the
/// filter but for the elements that references to bare elements place.
pub open spec fn references_expanded(
    cells: Seq<CellView>,
    references: Seq<ReferenceView>,
    filter: Seq<(i32, i32)>,
    depth: Option<usize>,
    path: Seq<int>,
) -> Seq<PlacedView>
    decreases references.len(),
{
    if references.len() == 0 {
        Seq::empty()
    } else {
        references_expanded(cells, references.drop_last(), filter, depth, path) + expanded(
            cells,
            references.last(),
            filter,
            depth,
            path,
        )
    }
}

/// A cell with its references replaced by what they stand for, `depth` levels deep, or
/// all the way down where no depth is given, each element where its copies put it: the
/// polygons, paths and texts of the cell stay, and what the references stand for joins
/// them, reference after reference. At depth 0 the cell is as it was. `None` where an
/// element cannot be resolved.
pub open spec fn flattened_cell(
    cells: Seq<CellView>,
    cell: CellView,
    filter: Seq<(i32, i32)>,
    depth: Option<usize>,
) -> Option<CellView> {
    if depth == Some(0usize) {
        Some(cell)
    } else {
        match every_resolved(
            references_expanded(
                cells,
                cell.references,
                filter,
                depth,
                own_path(cells, cell.name),
            ),
        ) {
            Some(elements) => Some(
                (CellView { references: Seq::empty(), ..cell }).with_all(elements),
            ),
            None => None,
        }
    }
}

/// Whether the first list is the beginning of the second.
pub open spec fn begins<T>(first: Seq<T>, second: Seq<T>) -> bool {
    first.len() <= second.len() && second.take(first.len() as int) == first
}

/// Elements added to a cell leave its name and put nothing before what it held: each
/// list of the cell is the beginning of the list after. Where none of the elements is a
/// reference, the references of the cell are as before.
pub proof fn lemma_with_all_keeps(cell: CellView, elements: Seq<ElementView>)
    ensures
        cell.with_all(elements).name == cell.name,
        begins(cell.polygons, cell.with_all(elements).polygons),
        begins(cell.paths, cell.with_all(elements).paths),
        begins(cell.texts, cell.with_all(elements).texts),
        begins(cell.references, cell.with_all(elements).references),
        (forall|i: int| 0 <= i < elements.len() ==> !((#[trigger] elements[i]) is Reference))
            ==> cell.with_all(elements).references == cell.references,
    decreases elements.len(),
{
    if elements.len() == 0 {
        assert(cell.polygons.take(cell.polygons.len() as int) =~= cell.polygons);
        assert(cell.paths.take(cell.paths.len() as int) =~= cell.paths);
        assert(cell.texts.take(cell.texts.len() as int) =~= cell.texts);
        assert(cell.references.take(cell.references.len() as int) =~= cell.references);
    } else {
        let fewer = elements.drop_last();
        lemma_with_all_keeps(cell, fewer);
        let before = cell.with_all(fewer);
        let after = before.with(elements.last());
        assert(after.polygons.take(cell.polygons.len() as int) =~= before.polygons.take(
            cell.polygons.len() as int,
        ));
        assert(after.paths.take(cell.paths.len() as int) =~= before.paths.take(
            cell.paths.len() as int,
        ));
        assert(after.texts.take(cell.texts.len() as int) =~= before.texts.take(
            cell.texts.len() as int,
        ));
        assert(after.references.take(cell.references.len() as int) =~= before.references.take(
            cell.references.len() as int,
        ));
        if forall|i: int| 0 <= i < elements.len() ==> !((#[trigger] elements[i]) is Reference) {
            assert forall|i: int| 0 <= i < fewer.len() implies !((#[trigger] fewer[i])
                is Reference) by {
                assert(fewer[i] == elements[i]);
            }
            assert(!(elements[elements.len() - 1] is Reference));
        }
    }
}

/// The placed elements as they lie in the end are as many as were placed, and each is
/// of the kind that was placed: a reference stays a reference, and nothing else becomes
/// one.
pub proof fn lemma_every_kind(list: Seq<PlacedView>)
    requires
        every_resolved(list) is Some,
    ensures
        every_resolved(list)->Some_0.len() == list.len(),
        forall|i: int|
            0 <= i < list.len() ==> ((#[trigger] every_resolved(list)->Some_0[i]) is Reference)
                == (list[i].element is Reference),
    decreases list.len(),
{
    if list.len() > 0 {
        lemma_every_kind(list.drop_last());
        let before = every_resolved(list.drop_last())->Some_0;
        let all = every_resolved(list)->Some_0;
        assert forall|i: int| 0 <= i < list.len() implies ((#[trigger] all[i]) is Reference) == (
        list[i].element is Reference) by {
            if i < list.len() - 1 {
                assert(all[i] == before[i]);
                assert(list.drop_last()[i] == list[i]);
            }
        }
    }
}

/// A cell whose references were replaced by what they stand for keeps its name, and its
/// polygons, paths and texts are the beginnings of the lists after. Its references are
/// those that were left unexpanded; where none was left, it has none.
pub proof fn lemma_flattened_cell_keeps(
    cells: Seq<CellView>,
    cell: CellView,
    filter: Seq<(i32, i32)>,
    depth: Option<usize>,
)
    requires
        flattened_cell(cells, cell, filter, depth) is Some,
    ensures
        ({
            let after = flattened_cell(cells, cell, filter, depth)->Some_0;
            let stood = references_expanded(
                cells,
                cell.references,
                filter,
                depth,
                own_path(cells, cell.name),
            );
            &&& after.name == cell.name
            &&& begins(cell.polygons, after.polygons)
            &&& begins(cell.paths, after.paths)
            &&& begins(cell.texts, after.texts)
            &&& depth != Some(0usize) && crate::flatten::concrete(stood)
                ==> after.references.len() == 0
        }),
{
    if depth == Some(0usize) {
        assert(cell.polygons.take(cell.polygons.len() as int) =~= cell.polygons);
        assert(cell.paths.take(cell.paths.len() as int) =~= cell.paths);
        assert(cell.texts.take(cell.texts.len() as int) =~= cell.texts);
    } else {
        let stood = references_expanded(
            cells,
            cell.references,
            filter,
            depth,
            own_path(cells, cell.name),
        );
        let elements = every_resolved(stood)->Some_0;
        let bare = CellView { references: Seq::empty(), ..cell };
        lemma_with_all_keeps(bare, elements);
        lemma_every_kind(stood);
        if crate::flatten::concrete(stood) {
            assert forall|i: int| 0 <= i < elements.len() implies !((#[trigger] elements[i])
                is Reference) by {
                assert(!(stood[i].element is Reference));
            }
        }
    }
}

/// What references from which no circle is met stand for, resolved all the way down and
/// joined reference after reference, holds no reference.
pub proof fn lemma_expanded_concrete(
    cells: Seq<CellView>,
    references: Seq<ReferenceView>,
    filter: Seq<(i32, i32)>,
    path: Seq<int>,
)
    requires
        crate::order::sound(path, cells.len() as int),
        crate::unwind::all_unwind(cells, references, path),
    ensures
        crate::flatten::concrete(references_expanded(cells, references, filter, None, path)),
    decreases references.len(),
{
    if references.len() > 0 {
        lemma_expanded_concrete(cells, references.drop_last(), filter, path);
        crate::unwind::lemma_unwound_concrete(cells, references.last(), filter, path);
        let before = references_expanded(cells, references.drop_last(), filter, None, path);
        let last = expanded(cells, references.last(), filter, None, path);
        assert forall|i: int| 0 <= i < (before + last).len() implies !((
        #[trigger] (before + last)[i]).element is Reference) by {
            if i < before.len() {
                assert((before + last)[i] == before[i]);
            } else {
                assert((before + last)[i] == last[i - before.len()]);
            }
        }
    }
}

/// A cell below which the references run in no circle, flattened all the way down, has
/// no reference left: it keeps its name, its polygons, paths and texts are the
/// beginnings of the lists after, and what joins them is what the references stood for.
pub proof fn lemma_flattened_cell_clear(
    cells: Seq<CellView>,
    cell: CellView,
    filter: Seq<(i32, i32)>,
)
    requires
        crate::unwind::all_unwind(cells, cell.references, own_path(cells, cell.name)),
        flattened_cell(cells, cell, filter, None) is Some,
    ensures
        ({
            let after = flattened_cell(cells, cell, filter, None)->Some_0;
            &&& after.references.len() == 0
            &&& after.name == cell.name
            &&& begins(cell.polygons, after.polygons)
            &&& begins(cell.paths, after.paths)
            &&& begins(cell.texts, after.texts)
        }),
{
    let path = own_path(cells, cell.name);
    assert(crate::order::sound(path, cells.len() as int)) by {
        crate::library::lemma_place_of(cells, cell.name);
    }
    lemma_expanded_concrete(cells, cell.references, filter, path);
    lemma_flattened_cell_keeps(cells, cell, filter, None);
}

/// Elements that cannot all be resolved among the first of a list cannot all be
/// resolved in the whole list.
pub proof fn lemma_every_fails(list: Seq<PlacedView>, count: int)
    requires
        0 <= count <= list.len(),
        every_resolved(list.take(count)).is_none(),
    ensures
        every_resolved(list).is_none(),
    decreases list.len() - count,
{
    if count == list.len() {
        assert(list.take(count) =~= list);
    } else {
        let next = list.take(count + 1);
        assert(next.drop_last() =~= list.take(count));
        lemma_every_fails(list, count + 1);
    }
}

/// The placed elements as they lie in the end.
pub fn resolve_every(list: &Vec<Placed>) -> (elements: Option<Vec<Element>>)
    ensures
        match elements {
            Some(found) => every_resolved(views(list@)) == Some(views(found@)),
            None => every_resolved(views(list@)).is_none(),
        },
{
    let ghost all = views(list@);
    let mut found: Vec<Element> = Vec::new();
    let mut index: usize = 0;
    proof {
        assert(all.take(0) =~= Seq::<PlacedView>::empty());
        assert(views(found@) =~= Seq::<ElementView>::empty());
    }
    while index < list.len()
        invariant
            index <= list.len(),
            all == views(list@),
            every_resolved(all.take(index as int)) == Some(views(found@)),
        decreases list.len() - index,
    {
        proof {
            let next = all.take(index + 1);
            assert(next.drop_last() =~= all.take(index as int));
            assert(next.last() == list@[index as int]@);
        }
        match list[index].resolve() {
            Some(element) => {
                proof {
                    lemma_views_push(found@, element);
                }
                found.push(element);
            },
            None => {
                proof {
                    lemma_every_fails(all, index + 1);
                }
                return None;
            },
        }
        index = index + 1;
    }
    proof {
        assert(all.take(list.len() as int) =~= all);
    }
    Some(found)
}

/// The copies that a reference to a bare element makes of it, through however many
/// references the element is placed: the copies of the innermost grid, each copied by
/// the next grid, and so on. A reference to a cell stands for itself: where the chain
/// ends in one, the copies are copies of that reference.
pub open spec fn chain_copies(reference: ReferenceView) -> Seq<PlacedView>
    decreases reference,
{
    match reference.instance {
        InstanceView::Cell(_) => seq![unplaced(ElementView::Reference(reference))],
        InstanceView::Element(element) => match *element {
            ElementView::Reference(inner) => spread(reference.grid, chain_copies(inner)),
            other => in_grid(reference.grid, unplaced(other)),
        },
    }
}

/// What a reference stands for without a library: the polygons, paths and texts that it
/// places, and the references to cells in which its chain ends, each where its copies
/// put it, in the order in which the grids make the copies. `None` where a copy cannot
/// be made in whole database units and without rounding.
pub open spec fn expansion(reference: ReferenceView) -> Option<Seq<ElementView>> {
    every_resolved(chain_copies(reference))
}

/// Whether an element is of a kind that a stream has records for: a polygon, a path, a
/// text, or a reference to a cell.
pub open spec fn has_records(element: ElementView) -> bool {
    match element {
        ElementView::Reference(reference) => reference.instance is Cell,
        _ => true,
    }
}

/// Whether every element of the list is of a kind that a stream has records for.
pub open spec fn all_have_records(list: Seq<PlacedView>) -> bool {
    forall|i: int| 0 <= i < list.len() ==> has_records((#[trigger] list[i]).element)
}

/// The copies that a grid makes of elements that a stream has records for are of the
/// same kinds.
pub proof fn lemma_spread_records(grid: Grid, list: Seq<PlacedView>)
    requires
        all_have_records(list),
    ensures
        all_have_records(spread(grid, list)),
    decreases list.len(),
{
    if list.len() > 0 {
        assert forall|i: int| 0 <= i < list.drop_last().len() implies has_records(
            (#[trigger] list.drop_last()[i]).element,
        ) by {
            assert(list.drop_last()[i] == list[i]);
        }
        lemma_spread_records(grid, list.drop_last());
        crate::flatten::lemma_grid_copies(grid, list.last(), grid.columns as nat);
        assert(has_records(list[list.len() - 1].element));
    }
}

/// Every copy that a reference makes is of a kind that a stream has records for: no
/// reference to a bare element is left among them.
pub proof fn lemma_chain_records(reference: ReferenceView)
    ensures
        all_have_records(chain_copies(reference)),
    decreases reference,
{
    match reference.instance {
        InstanceView::Cell(_) => {},
        InstanceView::Element(element) => match *element {
            ElementView::Reference(inner) => {
                lemma_chain_records(inner);
                lemma_spread_records(reference.grid, chain_copies(inner));
            },
            other => {
                crate::flatten::lemma_grid_copies(
                    reference.grid,
                    unplaced(other),
                    reference.grid.columns as nat,
                );
            },
        },
    }
}

/// A reference seen through copies places what it placed before.
pub proof fn lemma_instance_stays(reference: ReferenceView, placements: Seq<Placement>)
    requires
        reference_through_all(reference, placements) is Some,
    ensures
        reference_through_all(reference, placements)->Some_0.instance == reference.instance,
    decreases placements.len(),
{
    if placements.len() > 0 {
        lemma_instance_stays(reference, placements.drop_last());
    }
}

/// Elements of kinds that a stream has records for are of such kinds where their copies
/// put them.
pub proof fn lemma_resolved_records(list: Seq<PlacedView>)
    requires
        every_resolved(list) is Some,
        all_have_records(list),
    ensures
        every_resolved(list)->Some_0.len() == list.len(),
        forall|i: int| 0 <= i < list.len() ==> has_records(#[trigger] every_resolved(list)->Some_0[i]),
    decreases list.len(),
{
    if list.len() > 0 {
        assert forall|i: int| 0 <= i < list.drop_last().len() implies has_records(
            (#[trigger] list.drop_last()[i]).element,
        ) by {
            assert(list.drop_last()[i] == list[i]);
        }
        lemma_resolved_records(list.drop_last());
        let before = every_resolved(list.drop_last())->Some_0;
        let all = every_resolved(list)->Some_0;
        let last = list[list.len() - 1];
        assert(has_records(last.element));
        if let ElementView::Reference(reference) = last.element {
            lemma_instance_stays(reference, last.placements);
        }
        assert forall|i: int| 0 <= i < list.len() implies has_records(#[trigger] all[i]) by {
            if i < list.len() - 1 {
                assert(all[i] == before[i]);
            }
        }
    }
}

/// The copies that a reference makes.
fn chain(reference: &Reference) -> (copies: Vec<Placed>)
    ensures
        views(copies@) == chain_copies(reference@),
    decreases reference,
{
    match &reference.instance {
        Instance::Cell(_) => {
            let mut copies: Vec<Placed> = Vec::new();
            let placed = Placed::new(Element::Reference(reference.copy()));
            proof {
                lemma_views_push(copies@, placed);
                assert(views(copies@) =~= Seq::<PlacedView>::empty());
                assert(Seq::<PlacedView>::empty().push(placed@) =~= seq![placed@]);
            }
            copies.push(placed);
            copies
        },
        Instance::Element(element) => {
            assert(reference@.instance == InstanceView::Element(Box::new(element@)));
            match &**element {
                Element::Reference(inner) => {
                    let below = chain(inner);
                    spread_in_grid(reference.grid, &below)
                },
                other => copies_in_grid(reference.grid, &Placed::new(other.copy())),
            }
        },
    }
}

impl Reference {
    /// What the reference stands for without a library: the polygons, paths and texts
    /// that it places, and the references to cells in which its chain ends, each where
    /// its copies put it, in the order in which the grids make the copies. None of them
    /// is a reference to a bare element. `None` where a copy cannot be made in whole
    /// database units and without rounding.
    pub fn expand(&self) -> (elements: Option<Vec<Element>>)
        ensures
            match elements {
                Some(found) => expansion(self@) == Some(views(found@)),
                None => expansion(self@).is_none(),
            },
            elements matches Some(found) ==> forall|i: int|
                0 <= i < found@.len() ==> has_records((#[trigger] found@[i])@),
    {
        let copies = chain(self);
        let elements = resolve_every(&copies);
        proof {
            if elements is Some {
                let found = elements->Some_0;
                lemma_chain_records(self@);
                lemma_resolved_records(views(copies@));
                assert forall|i: int| 0 <= i < found@.len() implies has_records(
                    (#[trigger] found@[i])@,
                ) by {
                    assert(views(found@)[i] == found@[i]@);
                }
            }
        }
        elements
    }
}

impl Cell {
    /// Replaces the references of the cell by what they stand for in `library`, `depth`
    /// levels deep, or all the way down where no depth is given, each element where its
    /// copies put it. References that are left at the depth, or that close a circle,
    /// stay references, with the copies applied to their grids. Where an element cannot be
    /// resolved in whole numbers the cell stays as it is and `false` is returned.
    pub fn flatten(
        &mut self,
        library: &Library,
        layer_data_types: &Vec<(i32, i32)>,
        depth: Option<usize>,
    ) -> (done: bool)
        ensures
            match flattened_cell(library@.cells, old(self)@, layer_data_types@, depth) {
                Some(after) => done && final(self)@ == after,
                None => !done && final(self)@ == old(self)@,
            },
    {
        let ghost cells = library@.cells;
        let ghost references = self@.references;
        let path = path_of(library, &self.name);
        let ghost way = own_path(cells, self@.name);
        match depth {
            Some(count) => {
                if count == 0 {
                    return true;
                }
            },
            None => {},
        }
        let mut placed: Vec<Placed> = Vec::new();
        let mut index: usize = 0;
        proof {
            assert(references.take(0) =~= Seq::<ReferenceView>::empty());
            assert(views(placed@) =~= Seq::<PlacedView>::empty());
        }
        while index < self.references.len()
            invariant
                index <= self.references.len(),
                *self == *old(self),
                cells == library@.cells,
                references == self@.references,
                way == places(path@),
                way == own_path(cells, old(self)@.name),
                views(placed@) == references_expanded(
                    cells,
                    references.take(index as int),
                    layer_data_types@,
                    depth,
                    way,
                ),
            decreases self.references.len() - index,
        {
            let mut more = expand_to(
                &self.references[index],
                library,
                layer_data_types,
                depth,
                &path,
            );
            proof {
                let next = references.take(index + 1);
                assert(next.drop_last() =~= references.take(index as int));
                assert(next.last() == self.references@[index as int]@);
                lemma_views_concat(placed@, more@);
            }
            placed.append(&mut more);
            index = index + 1;
        }
        proof {
            assert(references.take(self.references.len() as int) =~= references);
        }
        match resolve_every(&placed) {
            Some(elements) => {
                self.references = Vec::new();
                proof {
                    assert(views(self.references@) =~= Seq::<ReferenceView>::empty());
                    assert(self@ == (CellView { references: Seq::empty(), ..old(self)@ }));
                }
                self.add(elements);
                true
            },
            None => false,
        }
    }
}

} // verus!
