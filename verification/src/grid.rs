use vstd::prelude::*;
use vstd::arithmetic::div_mod::lemma_fundamental_div_mod_converse;
use crate::motion::{exact_part, remainder, turned};
use crate::number::{Real, ONE_BITS};
use crate::point::{is_coordinate, Point};

verus! {

/// How an instance is repeated over a lattice, as a stream stores it: in whole database
/// units and in absolute position.
///
/// `origin` is where the copy of column 0 and row 0 is put. `corner_x` is where a copy of
/// column `columns` and row 0 would be put, one step beyond the last column; `corner_y`
/// is the same for the rows. Both corners are positions after the grid's rotation, so the
/// step between two columns is the `columns`-th part of `corner_x - origin`. Each copy is
/// mirrored about the x axis if `x_reflection` is set, then turned by `angle` degrees, then
/// enlarged by `magnification`. A grid of one column and one row is a single instance.
#[derive(Debug, Clone, Copy, PartialEq, Eq, Structural)]
pub struct Grid {
    pub origin: Point,
    pub columns: u32,
    pub rows: u32,
    pub corner_x: Point,
    pub corner_y: Point,
    pub magnification: Real,
    pub angle: Real,
    pub x_reflection: bool,
}

impl Grid {
    /// The grid of a single instance at the origin of the coordinates, as large as it is
    /// and not turned.
    pub open spec fn default_spec() -> Grid {
        Grid {
            origin: Point { x: 0, y: 0 },
            columns: 1,
            rows: 1,
            corner_x: Point { x: 0, y: 0 },
            corner_y: Point { x: 0, y: 0 },
            magnification: Real { bits: ONE_BITS },
            angle: Real { bits: 0 },
            x_reflection: false,
        }
    }

    /// Whether the two grids agree: corners less than `epsilon` apart, the same counts
    /// and mirror, and magnification and angle equal as numbers.
    pub open spec fn equal_within(self, other: Grid, epsilon: u32) -> bool {
        &&& self.origin.close_to(other.origin, epsilon)
        &&& self.columns == other.columns
        &&& self.rows == other.rows
        &&& self.corner_x.close_to(other.corner_x, epsilon)
        &&& self.corner_y.close_to(other.corner_y, epsilon)
        &&& self.magnification.same_number_spec(other.magnification)
        &&& self.angle.same_number_spec(other.angle)
        &&& self.x_reflection == other.x_reflection
    }

    /// Whether the grid displaced by `vector` still has coordinates.
    pub open spec fn can_move_by(self, vector: Point) -> bool {
        &&& self.origin.can_move_by(vector)
        &&& self.corner_x.can_move_by(vector)
        &&& self.corner_y.can_move_by(vector)
    }

    /// The grid displaced by `vector`.
    pub open spec fn moved_by(self, vector: Point) -> Grid
        recommends
            self.can_move_by(vector),
    {
        Grid {
            origin: self.origin.moved_by(vector),
            corner_x: self.corner_x.moved_by(vector),
            corner_y: self.corner_y.moved_by(vector),
            ..self
        }
    }

    /// The number of copies that the grid makes of its instance.
    pub open spec fn copies(self) -> nat {
        (self.columns * self.rows) as nat
    }

    /// A grid with the given fields.
    pub fn new(
        origin: Point,
        columns: u32,
        rows: u32,
        corner_x: Point,
        corner_y: Point,
        magnification: Real,
        angle: Real,
        x_reflection: bool,
    ) -> (grid: Grid)
        ensures
            grid == (Grid {
                origin,
                columns,
                rows,
                corner_x,
                corner_y,
                magnification,
                angle,
                x_reflection,
            }),
    {
        Grid { origin, columns, rows, corner_x, corner_y, magnification, angle, x_reflection }
    }

    /// The grid of a single instance at the origin of the coordinates.
    pub fn single() -> (grid: Grid)
        ensures
            grid == Grid::default_spec(),
    {
        let zero = Point { x: 0, y: 0 };
        Grid {
            origin: zero,
            columns: 1,
            rows: 1,
            corner_x: zero,
            corner_y: zero,
            magnification: Real::one(),
            angle: Real::zero(),
            x_reflection: false,
        }
    }

    /// Puts the copy of column 0 and row 0 at `origin`, and leaves the corners where they
    /// are.
    pub fn set_origin(&mut self, origin: Point)
        ensures
            *final(self) == (Grid { origin, ..*old(self) }),
    {
        self.origin = origin;
    }

    /// Sets the corner one step beyond the last column.
    pub fn set_corner_x(&mut self, corner_x: Point)
        ensures
            *final(self) == (Grid { corner_x, ..*old(self) }),
    {
        self.corner_x = corner_x;
    }

    /// Sets the corner one step beyond the last row.
    pub fn set_corner_y(&mut self, corner_y: Point)
        ensures
            *final(self) == (Grid { corner_y, ..*old(self) }),
    {
        self.corner_y = corner_y;
    }

    /// A copy of the grid.
    pub fn copy(&self) -> (grid: Grid)
        ensures
            grid == *self,
    {
        *self
    }

    /// Whether the two grids agree within `epsilon`.
    pub fn is_equal(&self, other: &Grid, epsilon: u32) -> (equal: bool)
        ensures
            equal == self.equal_within(*other, epsilon),
    {
        self.origin.epsilon_is_close(other.origin, epsilon) && self.columns == other.columns
            && self.rows == other.rows && self.corner_x.epsilon_is_close(other.corner_x, epsilon)
            && self.corner_y.epsilon_is_close(other.corner_y, epsilon)
            && self.magnification.same_number(&other.magnification) && self.angle.same_number(
            &other.angle,
        ) && self.x_reflection == other.x_reflection
    }

    /// Displaces the whole lattice by `vector`. Where a coordinate would leave the range
    /// of thirty-two signed bits the grid stays as it is and `false` is returned.
    pub fn move_by(&mut self, vector: Point) -> (moved: bool)
        ensures
            moved == old(self).can_move_by(vector),
            *final(self) == if moved {
                old(self).moved_by(vector)
            } else {
                *old(self)
            },
    {
        match (self.origin.move_by(vector), self.corner_x.move_by(vector), self.corner_y.move_by(vector)) {
            (Some(origin), Some(corner_x), Some(corner_y)) => {
                self.origin = origin;
                self.corner_x = corner_x;
                self.corner_y = corner_y;
                true
            },
            _ => false,
        }
    }

    /// The displacement that takes the grid's origin to `point`, where its coordinates
    /// fit thirty-two signed bits.
    pub open spec fn offset_to(self, point: Point) -> Point {
        Point { x: (point.x - self.origin.x) as i32, y: (point.y - self.origin.y) as i32 }
    }

    /// Whether the lattice can be displaced so that its origin comes to lie on `point`.
    pub open spec fn can_move_to(self, point: Point) -> bool {
        &&& crate::point::is_coordinate(point.x - self.origin.x)
        &&& crate::point::is_coordinate(point.y - self.origin.y)
        &&& self.can_move_by(self.offset_to(point))
    }

    /// Displaces the whole lattice so that its origin comes to lie on `point`. Where a
    /// coordinate would leave the range of thirty-two signed bits the grid stays as it is
    /// and `false` is returned.
    pub fn move_to(&mut self, point: Point) -> (moved: bool)
        ensures
            moved == old(self).can_move_to(point),
            *final(self) == if moved {
                old(self).moved_by(old(self).offset_to(point))
            } else {
                *old(self)
            },
    {
        let x: i64 = point.x as i64 - self.origin.x as i64;
        let y: i64 = point.y as i64 - self.origin.y as i64;
        if x < -0x8000_0000 || x > 0x7FFF_FFFF || y < -0x8000_0000 || y > 0x7FFF_FFFF {
            return false;
        }
        self.move_by(Point { x: x as i32, y: y as i32 })
    }
}


/// The number of quarter turns that an angle in degrees comes to, from 0 to 3, where the
/// angle is a whole number of degrees and a multiple of 90.
pub open spec fn quarters_of(angle: Real) -> Option<int> {
    match angle.whole_spec() {
        Some(degrees) => if degrees % 90 == 0 {
            Some((degrees % 360) / 90)
        } else {
            None
        },
        None => None,
    }
}

/// The corner of a grid one step beyond its last column or row: the origin displaced by
/// `count` times the spacing, turned by the grid's quarter turns.
pub open spec fn corner_of(origin: Point, spacing: Point, count: u32, quarters: int) -> (int, int) {
    let way = turned((count * spacing.x, count * spacing.y), quarters);
    (origin.x + way.0, origin.y + way.1)
}

/// The corner of a grid one step beyond its last column or row, where it can be said in
/// whole database units: the origin itself where the count or the spacing is zero,
/// whatever the angle; else the turned corner, where the angle is a whole number of
/// quarter turns.
pub open spec fn corner_spec(origin: Point, spacing: Point, count: u32, angle: Real) -> Option<
    (int, int),
> {
    if count == 0 || (spacing.x == 0 && spacing.y == 0) {
        Some((origin.x as int, origin.y as int))
    } else {
        match quarters_of(angle) {
            Some(quarters) => Some(corner_of(origin, spacing, count, quarters)),
            None => None,
        }
    }
}

/// The spacing of a grid along its columns or its rows, before the grid is turned, where
/// it can be said in whole database units: nothing where the count is zero or the
/// corner is the origin, whatever the angle; else the way to the corner divided by the
/// count and turned back, where the angle is a whole number of quarter turns, the count
/// divides the way, and the spacing lies within thirty-two signed bits.
pub open spec fn spacing_of(origin: Point, end: Point, count: u32, angle: Real) -> Option<Point> {
    if count == 0 || end == origin {
        Some(Point { x: 0, y: 0 })
    } else {
        match quarters_of(angle) {
            None => None,
            Some(quarters) => if (end.x - origin.x) % (count as int) == 0 && (end.y - origin.y) % (
            count as int) == 0 {
                let step = turned(
                    ((end.x - origin.x) / (count as int), (end.y - origin.y) / (count as int)),
                    (4 - quarters) % 4,
                );
                if is_coordinate(step.0) && is_coordinate(step.1) {
                    Some(Point { x: step.0 as i32, y: step.1 as i32 })
                } else {
                    None
                }
            } else {
                None
            },
        }
    }
}

impl Grid {
    /// The grid with the given spacings between its columns and between its rows, both
    /// measured before the grid is turned, where its corners can be said in whole
    /// database units and lie within thirty-two signed bits.
    pub open spec fn with_spacing_spec(
        origin: Point,
        columns: u32,
        rows: u32,
        spacing_x: Point,
        spacing_y: Point,
        magnification: Real,
        angle: Real,
        x_reflection: bool,
    ) -> Option<Grid> {
        match (
            corner_spec(origin, spacing_x, columns, angle),
            corner_spec(origin, spacing_y, rows, angle),
        ) {
            (Some(across), Some(up)) => {
                if is_coordinate(across.0) && is_coordinate(across.1) && is_coordinate(up.0)
                    && is_coordinate(up.1) {
                    Some(
                        Grid {
                            origin,
                            columns,
                            rows,
                            corner_x: Point { x: across.0 as i32, y: across.1 as i32 },
                            corner_y: Point { x: up.0 as i32, y: up.1 as i32 },
                            magnification,
                            angle,
                            x_reflection,
                        },
                    )
                } else {
                    None
                }
            },
            _ => None,
        }
    }

    /// The spacings between the columns and between the rows of the grid, before it is
    /// turned, where both can be said in whole database units. An axis along which the
    /// grid has no copies has no spacing: the vector of nothing.
    pub open spec fn spacing_spec(self) -> Option<(Point, Point)> {
        match (
            spacing_of(self.origin, self.corner_x, self.columns, self.angle),
            spacing_of(self.origin, self.corner_y, self.rows, self.angle),
        ) {
            (Some(across), Some(up)) => Some((across, up)),
            _ => None,
        }
    }
}

/// A grid without columns and without rows has no spacing along either axis, wherever
/// its corners lie.
pub proof fn lemma_no_copies_no_spacing(grid: Grid)
    requires
        grid.columns == 0,
        grid.rows == 0,
    ensures
        grid.spacing_spec() == Some((Point { x: 0, y: 0 }, Point { x: 0, y: 0 })),
{
}

/// The spacings of a grid that was made from spacings are those spacings, where the
/// grid has columns and rows and the spacings can be turned back.
pub proof fn lemma_spacing_back(
    origin: Point,
    columns: u32,
    rows: u32,
    spacing_x: Point,
    spacing_y: Point,
    magnification: Real,
    angle: Real,
    x_reflection: bool,
)
    requires
        columns > 0,
        rows > 0,
        spacing_x.x > i32::MIN,
        spacing_x.y > i32::MIN,
        spacing_y.x > i32::MIN,
        spacing_y.y > i32::MIN,
        Grid::with_spacing_spec(
            origin,
            columns,
            rows,
            spacing_x,
            spacing_y,
            magnification,
            angle,
            x_reflection,
        ) is Some,
    ensures
        Grid::with_spacing_spec(
            origin,
            columns,
            rows,
            spacing_x,
            spacing_y,
            magnification,
            angle,
            x_reflection,
        )->Some_0.spacing_spec() == Some((spacing_x, spacing_y)),
{
    let grid = Grid::with_spacing_spec(
        origin,
        columns,
        rows,
        spacing_x,
        spacing_y,
        magnification,
        angle,
        x_reflection,
    )->Some_0;
    assert(columns * spacing_x.x == 0 && columns * spacing_x.y == 0 ==> spacing_x.x == 0
        && spacing_x.y == 0) by (nonlinear_arith)
        requires
            columns > 0,
    ;
    assert(rows * spacing_y.x == 0 && rows * spacing_y.y == 0 ==> spacing_y.x == 0 && spacing_y.y
        == 0) by (nonlinear_arith)
        requires
            rows > 0,
    ;
    if quarters_of(angle) is Some {
        let quarters = quarters_of(angle)->Some_0;
        assert(0 <= quarters <= 3);
    }
    lemma_exact_part(columns as int, spacing_x.x as int);
    lemma_exact_part(columns as int, spacing_x.y as int);
    lemma_exact_part(columns as int, -spacing_x.x as int);
    lemma_exact_part(columns as int, -spacing_x.y as int);
    lemma_exact_part(rows as int, spacing_y.x as int);
    lemma_exact_part(rows as int, spacing_y.y as int);
    lemma_exact_part(rows as int, -spacing_y.x as int);
    lemma_exact_part(rows as int, -spacing_y.y as int);
    lemma_negated(columns as int, spacing_x.x as int);
    lemma_negated(columns as int, spacing_x.y as int);
    lemma_negated(rows as int, spacing_y.x as int);
    lemma_negated(rows as int, spacing_y.y as int);
}

/// A multiple of a count, divided by the count, is the multiplier, and nothing is left.
pub proof fn lemma_exact_part(count: int, step: int)
    requires
        count > 0,
    ensures
        (count * step) % count == 0,
        (count * step) / count == step,
{
    assert(count * step == step * count + 0) by (nonlinear_arith);
    lemma_fundamental_div_mod_converse(count * step, count, step, 0);
}

/// The negative of a multiple is the multiple of the negative.
pub proof fn lemma_negated(count: int, step: int)
    ensures
        -(count * step) == count * (-step),
{
    assert(-(count * step) == count * (-step)) by (nonlinear_arith);
}


/// The number of quarter turns that an angle in degrees comes to, where it is a whole
/// number of them.
pub fn quarter_turns(angle: Real) -> (quarters: Option<u8>)
    ensures
        quarters.is_some() == quarters_of(angle).is_some(),
        quarters matches Some(count) ==> quarters_of(angle) == Some(count as int),
{
    match angle.whole() {
        Some(degrees) => {
            if remainder(degrees as i64, 90) != 0 {
                None
            } else {
                Some((remainder(degrees as i64, 360) / 90) as u8)
            }
        },
        None => None,
    }
}

/// A vector turned counter-clockwise by a number of quarter turns from 0 to 3.
fn turn(x: i64, y: i64, quarters: u8) -> (to: (i64, i64))
    requires
        x > i64::MIN,
        y > i64::MIN,
    ensures
        (to.0 as int, to.1 as int) == turned((x as int, y as int), quarters as int),
{
    if quarters == 0 {
        (x, y)
    } else if quarters == 1 {
        (-y, x)
    } else if quarters == 2 {
        (-x, -y)
    } else {
        (y, -x)
    }
}

/// The corner of a grid one step beyond its last column or row; `None` where it cannot
/// be said in whole database units, or lies beyond thirty-two signed bits.
#[verifier::spinoff_prover]
fn corner(origin: Point, spacing: Point, count: u32, angle: Real) -> (found: Option<Point>)
    ensures
        found.is_some() <==> (corner_spec(origin, spacing, count, angle) matches Some(place)
            && is_coordinate(place.0) && is_coordinate(place.1)),
        found matches Some(point) ==> Some((point.x as int, point.y as int)) == corner_spec(
            origin,
            spacing,
            count,
            angle,
        ),
{
    if count == 0 || (spacing.x == 0 && spacing.y == 0) {
        return Some(origin);
    }
    let quarters = match quarter_turns(angle) {
        Some(quarters) => quarters,
        None => {
            return None;
        },
    };
    let many: i64 = count as i64;
    let wide: i64 = spacing.x as i64;
    let high: i64 = spacing.y as i64;
    assert(-0x7FFF_FFFF_8000_0000 <= many * wide <= 0x7FFF_FFFF_8000_0000) by (nonlinear_arith)
        requires
            0 <= many <= 0xFFFF_FFFF,
            -0x8000_0000 <= wide <= 0x7FFF_FFFF,
    ;
    assert(-0x7FFF_FFFF_8000_0000 <= many * high <= 0x7FFF_FFFF_8000_0000) by (nonlinear_arith)
        requires
            0 <= many <= 0xFFFF_FFFF,
            -0x8000_0000 <= high <= 0x7FFF_FFFF,
    ;
    let (way_x, way_y) = turn(many * wide, many * high, quarters);
    if way_x < -0x1_0000_0000 || way_x > 0x1_0000_0000 || way_y < -0x1_0000_0000 || way_y
        > 0x1_0000_0000 {
        return None;
    }
    let x: i64 = origin.x as i64 + way_x;
    let y: i64 = origin.y as i64 + way_y;
    if x < -0x8000_0000 || x > 0x7FFF_FFFF || y < -0x8000_0000 || y > 0x7FFF_FFFF {
        None
    } else {
        Some(Point { x: x as i32, y: y as i32 })
    }
}

/// The spacing of a grid along its columns or its rows, before the grid is turned;
/// `None` where it cannot be said in whole database units.
#[verifier::spinoff_prover]
fn spacing_to(origin: Point, end: Point, count: u32, angle: Real) -> (found: Option<Point>)
    ensures
        found == spacing_of(origin, end, count, angle),
{
    if count == 0 || (end.x == origin.x && end.y == origin.y) {
        return Some(Point { x: 0, y: 0 });
    }
    let quarters = match quarter_turns(angle) {
        Some(quarters) => quarters,
        None => {
            return None;
        },
    };
    let many: i64 = count as i64;
    let way_x: i64 = end.x as i64 - origin.x as i64;
    let way_y: i64 = end.y as i64 - origin.y as i64;
    if remainder(way_x, many) != 0 || remainder(way_y, many) != 0 {
        return None;
    }
    let step_x = exact_part(way_x, many);
    let step_y = exact_part(way_y, many);
    let back: u8 = (4 - quarters) % 4;
    let (x, y) = turn(step_x, step_y, back);
    if x < -0x8000_0000 || x > 0x7FFF_FFFF || y < -0x8000_0000 || y > 0x7FFF_FFFF {
        None
    } else {
        Some(Point { x: x as i32, y: y as i32 })
    }
}

impl Grid {
    /// The grid with the given spacings between its columns and between its rows, both
    /// measured before the grid is turned; `None` where a corner cannot be said in whole
    /// database units, or would lie beyond thirty-two signed bits.
    pub fn with_spacing(
        origin: Point,
        columns: u32,
        rows: u32,
        spacing_x: Point,
        spacing_y: Point,
        magnification: Real,
        angle: Real,
        x_reflection: bool,
    ) -> (grid: Option<Grid>)
        ensures
            grid == Grid::with_spacing_spec(
                origin,
                columns,
                rows,
                spacing_x,
                spacing_y,
                magnification,
                angle,
                x_reflection,
            ),
    {
        match (corner(origin, spacing_x, columns, angle), corner(origin, spacing_y, rows, angle)) {
            (Some(corner_x), Some(corner_y)) => Some(
                Grid {
                    origin,
                    columns,
                    rows,
                    corner_x,
                    corner_y,
                    magnification,
                    angle,
                    x_reflection,
                },
            ),
            _ => None,
        }
    }

    /// The spacings between the columns and between the rows of the grid, before it is
    /// turned, where they can be said in whole database units; nothing along an axis
    /// without copies.
    pub fn spacing(&self) -> (spacings: Option<(Point, Point)>)
        ensures
            spacings == self.spacing_spec(),
    {
        match (
            spacing_to(self.origin, self.corner_x, self.columns, self.angle),
            spacing_to(self.origin, self.corner_y, self.rows, self.angle),
        ) {
            (Some(across), Some(up)) => Some((across, up)),
            _ => None,
        }
    }
}

} // verus!
