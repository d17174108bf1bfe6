use vstd::prelude::*;
use crate::cell::{Cell, CellView};
use crate::element::{Element, ElementView, Reference, ReferenceView};
use crate::traits::{views, Shape};
use crate::exact::{angle_sum, multiply, product, sum, sum_of_turns, total, turn_total};
use crate::grid::{quarter_turns, quarters_of, Grid};
use crate::scaling::{stretch, stretched};
use crate::motion::{
    enlarged,
    landing,
    lands,
    mirrored,
    remainder,
    signed_rest,
    signed_rest_of,
    turned,
    whole_sized,
    Motion,
};
use crate::text::{Text, TextView};
use crate::number::Real;
use crate::path::{Path, PathView};
use crate::point::{is_coordinate, Point};
use crate::polygon::{Polygon, PolygonView};

verus! {

/// A change of a shape about a centre: a turn by an angle in degrees, counter-clockwise;
/// an enlargement by a factor; or a mirroring about the line through the centre at an
/// angle in degrees.
#[derive(Debug, Clone, Copy, PartialEq, Eq, Structural)]
pub enum Change {
    Rotate { angle: Real, centre: Point },
    Scale { factor: Real, centre: Point },
    Reflect { angle: Real, centre: Point },
}

impl Change {
    /// The point about which the change is made.
    pub open spec fn centre_spec(self) -> Point {
        match self {
            Change::Rotate { angle, centre } => centre,
            Change::Scale { factor, centre } => centre,
            Change::Reflect { angle, centre } => centre,
        }
    }

    /// The angle or the factor of the change.
    pub open spec fn amount_spec(self) -> Real {
        match self {
            Change::Rotate { angle, centre } => angle,
            Change::Scale { factor, centre } => factor,
            Change::Reflect { angle, centre } => angle,
        }
    }

    /// Whether the change leaves the point where it is whatever its angle or factor: the
    /// point is the centre, and the angle or factor is a number.
    pub open spec fn keeps(self, point: Point) -> bool {
        point == self.centre_spec() && self.amount_spec().finite_spec()
    }

    /// The point about which the change is made.
    pub fn centre(&self) -> (centre: Point)
        ensures
            centre == self.centre_spec(),
    {
        match self {
            Change::Rotate { angle, centre } => *centre,
            Change::Scale { factor, centre } => *centre,
            Change::Reflect { angle, centre } => *centre,
        }
    }

    /// The angle or the factor of the change.
    pub fn amount(&self) -> (amount: Real)
        ensures
            amount == self.amount_spec(),
    {
        match self {
            Change::Rotate { angle, centre } => *angle,
            Change::Scale { factor, centre } => *factor,
            Change::Reflect { angle, centre } => *angle,
        }
    }
}

impl Motion {
    /// The motion that mirrors, turns and enlarges about `centre`, which it leaves
    /// where it is.
    pub open spec fn about(mirror: bool, quarters: int, degrees: int, factor: int, centre: Point) -> Motion {
        let moved = enlarged(
            turned(mirrored((centre.x as int, centre.y as int), mirror), quarters),
            factor,
        );
        Motion {
            mirror,
            quarters: quarters as u8,
            degrees: degrees as i32,
            factor: factor as i32,
            offset_x: (centre.x - moved.0) as i64,
            offset_y: (centre.y - moved.1) as i64,
        }
    }

    /// The motion that mirrors, turns and enlarges about `centre`.
    #[verifier::spinoff_prover]
    pub fn around(mirror: bool, quarters: u8, degrees: i32, factor: i32, centre: Point) -> (motion:
        Motion)
        requires
            quarters <= 3,
        ensures
            motion == Motion::about(mirror, quarters as int, degrees as int, factor as int, centre),
            motion.well_formed(),
    {
        let x: i64 = centre.x as i64;
        let y: i64 = if mirror {
            -(centre.y as i64)
        } else {
            centre.y as i64
        };
        let (turned_x, turned_y): (i64, i64) = if quarters == 0 {
            (x, y)
        } else if quarters == 1 {
            (-y, x)
        } else if quarters == 2 {
            (-x, -y)
        } else {
            (y, -x)
        };
        let wide: i64 = factor as i64;
        assert(-0x4000_0000_0000_0000 <= wide * turned_x <= 0x4000_0000_0000_0000)
            by (nonlinear_arith)
            requires
                -0x8000_0000 <= wide <= 0x7FFF_FFFF,
                -0x8000_0000 <= turned_x <= 0x8000_0000,
        ;
        assert(-0x4000_0000_0000_0000 <= wide * turned_y <= 0x4000_0000_0000_0000)
            by (nonlinear_arith)
            requires
                -0x8000_0000 <= wide <= 0x7FFF_FFFF,
                -0x8000_0000 <= turned_y <= 0x8000_0000,
        ;
        Motion {
            mirror,
            quarters,
            degrees,
            factor,
            offset_x: centre.x as i64 - wide * turned_x,
            offset_y: centre.y as i64 - wide * turned_y,
        }
    }
}

/// A motion about a centre leaves the centre where it is.
pub proof fn lemma_centre_stays(mirror: bool, quarters: int, degrees: int, factor: int, centre: Point)
    requires
        0 <= quarters <= 3,
        -0x8000_0000 <= factor <= 0x7FFF_FFFF,
    ensures
        Motion::about(mirror, quarters, degrees, factor, centre).image(
            centre.x as int,
            centre.y as int,
        ) == (centre.x as int, centre.y as int),
{
    let moved = enlarged(
        turned(mirrored((centre.x as int, centre.y as int), mirror), quarters),
        factor,
    );
    assert(-0x4000_0000_0000_0000 <= moved.0 <= 0x4000_0000_0000_0000) by (nonlinear_arith)
        requires
            moved.0 == factor * turned(
                mirrored((centre.x as int, centre.y as int), mirror),
                quarters,
            ).0,
            -0x8000_0000 <= factor <= 0x7FFF_FFFF,
            -0x8000_0000 <= turned(mirrored((centre.x as int, centre.y as int), mirror), quarters).0
                <= 0x8000_0000,
    ;
    assert(-0x4000_0000_0000_0000 <= moved.1 <= 0x4000_0000_0000_0000) by (nonlinear_arith)
        requires
            moved.1 == factor * turned(
                mirrored((centre.x as int, centre.y as int), mirror),
                quarters,
            ).1,
            -0x8000_0000 <= factor <= 0x7FFF_FFFF,
            -0x8000_0000 <= turned(mirrored((centre.x as int, centre.y as int), mirror), quarters).1
                <= 0x8000_0000,
    ;
}

/// The number of quarter turns by which a mirroring about a line at an angle differs
/// from the mirroring about the x axis, where the angle is a whole number of degrees and
/// a multiple of 45: twice the angle, in quarter turns from 0 to 3.
pub open spec fn mirror_turns(angle: Real) -> Option<int> {
    match angle.whole_spec() {
        Some(degrees) => if degrees % 45 == 0 {
            Some(((2 * degrees) % 360) / 90)
        } else {
            None
        },
        None => None,
    }
}

/// The motion of every point under a change, where there is one in whole database
/// units: a turn by a whole number of quarter turns about the centre; an
/// enlargement by a whole number about the centre; a mirroring about a line through the
/// centre that runs along an axis or a diagonal, which is the mirroring about the x axis
/// followed by a turn by twice the angle of the line.
pub open spec fn change_motion(change: Change) -> Option<Motion> {
    match change {
        Change::Rotate { angle, centre } => match quarters_of(angle) {
            Some(quarters) => Some(
                Motion::about(false, quarters, angle.whole_spec()->Some_0, 1, centre),
            ),
            None => None,
        },
        Change::Scale { factor, centre } => match factor.whole_spec() {
            Some(size) => Some(Motion::about(false, 0, 0, size, centre)),
            None => None,
        },
        Change::Reflect { angle, centre } => match mirror_turns(angle) {
            Some(quarters) => Some(Motion::about(true, quarters, 0, 1, centre)),
            None => None,
        },
    }
}

/// The motion of the points of a shape under a change.
pub fn motion_of(change: Change) -> (motion: Option<Motion>)
    ensures
        motion == change_motion(change),
        motion matches Some(found) ==> found.well_formed(),
{
    match change {
        Change::Rotate { angle, centre } => match quarter_turns(angle) {
            Some(quarters) => {
                let degrees = angle.whole();
                match degrees {
                    Some(degrees) => Some(Motion::around(false, quarters, degrees, 1, centre)),
                    None => None,
                }
            },
            None => None,
        },
        Change::Scale { factor, centre } => match factor.whole() {
            Some(size) => Some(Motion::around(false, 0, 0, size, centre)),
            None => None,
        },
        Change::Reflect { angle, centre } => match angle.whole() {
            Some(degrees) => {
                if remainder(degrees as i64, 45) != 0 {
                    None
                } else {
                    let quarters = (remainder(2 * (degrees as i64), 360) / 90) as u8;
                    Some(Motion::around(true, quarters, 0, 1, centre))
                }
            },
            None => None,
        },
    }
}

/// The points of a shape under a change, each changed by itself; `None` where the change
/// takes one of them off the whole database units, or beyond thirty-two signed bits.
pub open spec fn points_changed(points: Seq<Point>, change: Change) -> Option<Seq<Point>> {
    if forall|i: int| 0 <= i < points.len() ==> (#[trigger] points[i].changed(change)) is Some {
        Some(Seq::new(points.len(), |i: int| points[i].changed(change)->Some_0))
    } else {
        None
    }
}

/// The points of a shape under a change.
pub fn change_points(points: &Vec<Point>, change: Change) -> (changed: Option<Vec<Point>>)
    ensures
        match changed {
            Some(list) => points_changed(points@, change) == Some(list@),
            None => points_changed(points@, change).is_none(),
        },
{
    let mut list: Vec<Point> = Vec::new();
    let mut at: usize = 0;
    while at < points.len()
        invariant
            at <= points.len(),
            list@.len() == at,
            forall|i: int| 0 <= i < at ==> (#[trigger] points@[i].changed(change)) == Some(list@[i]),
        decreases points.len() - at,
    {
        match points[at].change(change) {
            Some(point) => {
                list.push(point);
            },
            None => {
                assert(points@[at as int].changed(change) is None);
                return None;
            },
        }
        at += 1;
    }
    assert(list@ =~= Seq::new(points@.len(), |i: int| points@[i].changed(change)->Some_0));
    Some(list)
}

impl Point {
    /// The point under a change. Where the change has a motion in whole database units,
    /// the point goes where the motion takes it, or nowhere beyond thirty-two signed
    /// bits. Under an enlargement by a factor that is no whole number the point goes
    /// where the factor takes it, if that is on the whole database units. Under any other
    /// turn or mirroring the centre alone stays on the whole database units, where it
    /// was: every other point is refused.
    pub open spec fn changed(self, change: Change) -> Option<Point> {
        match change_motion(change) {
            Some(motion) => if crate::motion::lands(motion, self) {
                Some(crate::motion::landing(motion, self))
            } else {
                None
            },
            None => match change {
                Change::Scale { factor, centre } => self.stretched_from(factor, centre),
                _ => if change.keeps(self) {
                    Some(self)
                } else {
                    None
                },
            },
        }
    }

    /// The point under a change.
    pub fn change(&self, change: Change) -> (changed: Option<Point>)
        ensures
            changed == self.changed(change),
    {
        match motion_of(change) {
            Some(motion) => motion.apply(*self),
            None => match change {
                Change::Scale { factor, centre } => self.stretch_from(factor, centre),
                _ => {
                    let centre = change.centre();
                    if self.x == centre.x && self.y == centre.y && change.amount().is_finite() {
                        Some(*self)
                    } else {
                        None
                    }
                },
            },
        }
    }

    /// The point turned counter-clockwise about `centre` by `angle` degrees: by a whole
    /// number of quarter turns, or the centre itself by any angle.
    pub fn rotate(&self, angle: Real, centre: Point) -> (turned: Option<Point>)
        ensures
            turned == self.changed(Change::Rotate { angle, centre }),
    {
        self.change(Change::Rotate { angle, centre })
    }

    /// The point moved away from `centre` by `factor`, where that leaves it on the whole
    /// database units.
    pub fn scale(&self, factor: Real, centre: Point) -> (scaled: Option<Point>)
        ensures
            scaled == self.changed(Change::Scale { factor, centre }),
    {
        self.change(Change::Scale { factor, centre })
    }

    /// The point mirrored about the line through `centre` at `angle` degrees: a whole
    /// multiple of 45, or the centre itself at any angle.
    pub fn reflect(&self, angle: Real, centre: Point) -> (mirrored: Option<Point>)
        ensures
            mirrored == self.changed(Change::Reflect { angle, centre }),
    {
        self.change(Change::Reflect { angle, centre })
    }
}

impl Polygon {
    /// Changes every point of the polygon. Where the change would take a point off the
    /// whole database units, or beyond thirty-two signed bits, the polygon stays as it is
    /// and `false` is returned.
    pub fn change(&mut self, change: Change) -> (done: bool)
        ensures
            match points_changed(old(self)@.points, change) {
                Some(points) => done && final(self)@ == (PolygonView { points, ..old(self)@ }),
                None => !done && final(self)@ == old(self)@,
            },
    {
        match change_points(&self.points, change) {
            Some(points) => {
                self.points = points;
                true
            },
            None => false,
        }
    }

    /// Turns the polygon counter-clockwise about `centre` by `angle` degrees.
    pub fn rotate(&mut self, angle: Real, centre: Point) -> (done: bool)
        ensures
            match points_changed(old(self)@.points, Change::Rotate { angle, centre }) {
                Some(points) => done && final(self)@ == (PolygonView { points, ..old(self)@ }),
                None => !done && final(self)@ == old(self)@,
            },
    {
        self.change(Change::Rotate { angle, centre })
    }

    /// Enlarges the polygon about `centre` by `factor`.
    pub fn scale(&mut self, factor: Real, centre: Point) -> (done: bool)
        ensures
            match points_changed(old(self)@.points, Change::Scale { factor, centre }) {
                Some(points) => done && final(self)@ == (PolygonView { points, ..old(self)@ }),
                None => !done && final(self)@ == old(self)@,
            },
    {
        self.change(Change::Scale { factor, centre })
    }

    /// Mirrors the polygon about the line through `centre` at `angle` degrees.
    pub fn reflect(&mut self, angle: Real, centre: Point) -> (done: bool)
        ensures
            match points_changed(old(self)@.points, Change::Reflect { angle, centre }) {
                Some(points) => done && final(self)@ == (PolygonView { points, ..old(self)@ }),
                None => !done && final(self)@ == old(self)@,
            },
    {
        self.change(Change::Reflect { angle, centre })
    }
}

impl Path {
    /// Changes every point of the path; the width stays. Where the change would take a
    /// point off the whole database units, or beyond thirty-two signed bits, the path
    /// stays as it is and `false` is returned.
    pub fn change(&mut self, change: Change) -> (done: bool)
        ensures
            match points_changed(old(self)@.points, change) {
                Some(points) => done && final(self)@ == (PathView { points, ..old(self)@ }),
                None => !done && final(self)@ == old(self)@,
            },
    {
        match change_points(&self.points, change) {
            Some(points) => {
                self.points = points;
                true
            },
            None => false,
        }
    }

    /// Turns the path counter-clockwise about `centre` by `angle` degrees.
    pub fn rotate(&mut self, angle: Real, centre: Point) -> (done: bool)
        ensures
            match points_changed(old(self)@.points, Change::Rotate { angle, centre }) {
                Some(points) => done && final(self)@ == (PathView { points, ..old(self)@ }),
                None => !done && final(self)@ == old(self)@,
            },
    {
        self.change(Change::Rotate { angle, centre })
    }

    /// Enlarges the path about `centre` by `factor`.
    pub fn scale(&mut self, factor: Real, centre: Point) -> (done: bool)
        ensures
            match points_changed(old(self)@.points, Change::Scale { factor, centre }) {
                Some(points) => done && final(self)@ == (PathView { points, ..old(self)@ }),
                None => !done && final(self)@ == old(self)@,
            },
    {
        self.change(Change::Scale { factor, centre })
    }

    /// Mirrors the path about the line through `centre` at `angle` degrees.
    pub fn reflect(&mut self, angle: Real, centre: Point) -> (done: bool)
        ensures
            match points_changed(old(self)@.points, Change::Reflect { angle, centre }) {
                Some(points) => done && final(self)@ == (PathView { points, ..old(self)@ }),
                None => !done && final(self)@ == old(self)@,
            },
    {
        self.change(Change::Reflect { angle, centre })
    }
}


/// A text under a change, where that can be said without rounding. The origin goes
/// where the change takes it. A turn adds its angle to that of the text; an enlargement
/// multiplies the magnification; a mirroring about a line at an angle leaves the text at
/// twice that angle less its own, cut to less than a turn.
pub open spec fn text_changed(text: TextView, change: Change) -> Option<TextView> {
    match (text.origin.changed(change), change) {
        (Some(origin), Change::Rotate { angle, centre }) => match total(text.angle, angle) {
            Some(turned) => Some(TextView { origin, angle: turned, ..text }),
            None => None,
        },
        (Some(origin), Change::Scale { factor, centre }) => match product(
            text.magnification,
            factor,
        ) {
            Some(enlarged) => Some(TextView { origin, magnification: enlarged, ..text }),
            None => None,
        },
        (Some(origin), Change::Reflect { angle, centre }) => match (
            text.angle.whole_spec(),
            angle.whole_spec(),
        ) {
            (Some(own), Some(line)) => Some(
                TextView {
                    origin,
                    angle: Real::of_whole(signed_rest(2 * line - own, 360)),
                    ..text
                },
            ),
            _ => None,
        },
        _ => None,
    }
}

impl Text {
    /// Changes the text. Where the change cannot be made without rounding the text
    /// stays as it is and `false` is returned.
    pub fn change(&mut self, change: Change) -> (done: bool)
        ensures
            match text_changed(old(self)@, change) {
                Some(after) => done && final(self)@ == after,
                None => !done && final(self)@ == old(self)@,
            },
    {
        let origin = match self.origin.change(change) {
            Some(origin) => origin,
            None => {
                return false;
            },
        };
        match change {
            Change::Rotate { angle, centre } => {
                match sum(self.angle, angle) {
                    Some(turned) => {
                        self.origin = origin;
                        self.angle = turned;
                        true
                    },
                    None => false,
                }
            },
            Change::Scale { factor, centre } => {
                match multiply(self.magnification, factor) {
                    Some(enlarged) => {
                        self.origin = origin;
                        self.magnification = enlarged;
                        true
                    },
                    None => false,
                }
            },
            Change::Reflect { angle, centre } => {
                match (self.angle.whole(), angle.whole()) {
                    (Some(own), Some(line)) => {
                        let rest = signed_rest_of(2 * (line as i64) - own as i64, 360);
                        self.origin = origin;
                        self.angle = Real::from_whole(rest as i32);
                        true
                    },
                    _ => false,
                }
            },
        }
    }

    /// Turns the text counter-clockwise about `centre` by `angle` degrees.
    pub fn rotate(&mut self, angle: Real, centre: Point) -> (done: bool)
        ensures
            match text_changed(old(self)@, Change::Rotate { angle, centre }) {
                Some(after) => done && final(self)@ == after,
                None => !done && final(self)@ == old(self)@,
            },
    {
        self.change(Change::Rotate { angle, centre })
    }

    /// Enlarges the text about `centre` by `factor`.
    pub fn scale(&mut self, factor: Real, centre: Point) -> (done: bool)
        ensures
            match text_changed(old(self)@, Change::Scale { factor, centre }) {
                Some(after) => done && final(self)@ == after,
                None => !done && final(self)@ == old(self)@,
            },
    {
        self.change(Change::Scale { factor, centre })
    }

    /// Mirrors the text about the line through `centre` at `angle` degrees.
    pub fn reflect(&mut self, angle: Real, centre: Point) -> (done: bool)
        ensures
            match text_changed(old(self)@, Change::Reflect { angle, centre }) {
                Some(after) => done && final(self)@ == after,
                None => !done && final(self)@ == old(self)@,
            },
    {
        self.change(Change::Reflect { angle, centre })
    }
}

/// The corner of a grid after an enlargement about a centre, which takes the origin of
/// the grid to `origin` and the spacing, as if it were a point, away from the centre. The
/// way from the origin to the corner grows by the factor. The centre adds its own share,
/// so many times as the grid has columns or rows, turned with the grid: nothing where
/// the factor is one or the centre is the origin of the coordinates; else it is whole
/// only where the factor is a whole number and the grid turns by quarter turns. An axis
/// without copies has no way to its corner.
pub open spec fn corner_scaled(
    grid: Grid,
    origin: Point,
    corner: Point,
    count: u32,
    factor: Real,
    centre: Point,
) -> Option<(int, int)> {
    if count == 0 {
        Some((origin.x as int, origin.y as int))
    } else {
        match factor.whole_spec() {
            Some(size) => {
                let grown = (
                    origin.x + size * (corner.x - grid.origin.x),
                    origin.y + size * (corner.y - grid.origin.y),
                );
                if size == 1 || (centre.x == 0 && centre.y == 0) {
                    Some(grown)
                } else {
                    match quarters_of(grid.angle) {
                        Some(quarters) => {
                            let share = turned((centre.x as int, centre.y as int), quarters);
                            Some(
                                (
                                    grown.0 + count * ((1 - size) * share.0),
                                    grown.1 + count * ((1 - size) * share.1),
                                ),
                            )
                        },
                        None => None,
                    }
                }
            },
            None => if centre.x == 0 && centre.y == 0 {
                match (
                    stretched(corner.x - grid.origin.x, factor),
                    stretched(corner.y - grid.origin.y, factor),
                ) {
                    (Some(wide), Some(high)) => Some((origin.x + wide, origin.y + high)),
                    _ => None,
                }
            } else {
                None
            },
        }
    }
}

/// A grid under a change, where that can be said in whole database units and without
/// rounding.
///
/// A turn takes the origin and both corners about the centre and adds to the angle,
/// which is kept from 0 up to 360; where the grid lies at the centre, the turn may be by
/// any whole number of degrees. An enlargement multiplies the magnification and takes
/// the origin and both spacings away from the centre by the factor, each spacing as if
/// it were a point; the corners follow as `corner_scaled` says. A mirroring about
/// the x axis, which is the line at angle zero through a centre on that axis, flips the
/// mirror of the grid and does nothing else; any other mirroring takes the origin and
/// both spacings to their mirror images and leaves the grid at twice the angle of the
/// line less its own, cut to less than a turn.
pub open spec fn grid_changed(grid: Grid, change: Change) -> Option<Grid> {
    match change {
        Change::Rotate { angle, centre } => match (
            grid.origin.changed(change),
            grid.corner_x.changed(change),
            grid.corner_y.changed(change),
            turn_total(grid.angle, angle),
        ) {
            (Some(origin), Some(corner_x), Some(corner_y), Some(turned)) => Some(
                Grid { origin, corner_x, corner_y, angle: turned, ..grid },
            ),
            _ => None,
        },
        Change::Scale { factor, centre } => match (
            grid.origin.changed(change),
            product(grid.magnification, factor),
        ) {
            (Some(origin), Some(enlarged)) => match (
                corner_scaled(grid, origin, grid.corner_x, grid.columns, factor, centre),
                corner_scaled(grid, origin, grid.corner_y, grid.rows, factor, centre),
            ) {
                (Some(across), Some(up)) => if is_coordinate(across.0) && is_coordinate(across.1)
                    && is_coordinate(up.0) && is_coordinate(up.1) {
                    Some(
                        Grid {
                            origin,
                            corner_x: Point { x: across.0 as i32, y: across.1 as i32 },
                            corner_y: Point { x: up.0 as i32, y: up.1 as i32 },
                            magnification: enlarged,
                            ..grid
                        },
                    )
                } else {
                    None
                },
                _ => None,
            },
            _ => None,
        },
        Change::Reflect { angle, centre } => if angle.zero_spec() && centre.y == 0 {
            Some(Grid { x_reflection: !grid.x_reflection, ..grid })
        } else {
            match (
                grid.origin.changed(change),
                grid.spacing_spec(),
                grid.angle.whole_spec(),
                angle.whole_spec(),
            ) {
                (Some(origin), Some((across, up)), Some(own), Some(line)) => match (
                    across.changed(change),
                    up.changed(change),
                ) {
                    (Some(spacing_x), Some(spacing_y)) => Grid::with_spacing_spec(
                        origin,
                        grid.columns,
                        grid.rows,
                        spacing_x,
                        spacing_y,
                        grid.magnification,
                        Real::of_whole(signed_rest(2 * line - own, 360)),
                        grid.x_reflection,
                    ),
                    _ => None,
                },
                _ => None,
            }
        },
    }
}

/// Under an enlargement by a whole number that is not zero a point goes where the same
/// factor, taken as a double, takes it: the two ways of enlarging agree where both
/// apply.
pub proof fn lemma_scale_agrees(point: Point, factor: Real, centre: Point)
    requires
        factor.whole_spec() is Some,
        factor.whole_spec()->Some_0 != 0,
    ensures
        point.changed(Change::Scale { factor, centre }) == point.stretched_from(factor, centre),
{
    let size = factor.whole_spec()->Some_0;
    crate::number::lemma_whole_range(factor);
    crate::scaling::lemma_stretched_whole(point.x - centre.x, factor);
    crate::scaling::lemma_stretched_whole(point.y - centre.y, factor);
    let motion = Motion::about(false, 0, 0, size, centre);
    let image = motion.image(point.x as int, point.y as int);
    assert(-0x4000_0000_0000_0000 <= size * centre.x <= 0x4000_0000_0000_0000)
        by (nonlinear_arith)
        requires
            -0x8000_0000 <= size <= 0x8000_0000,
            -0x8000_0000 <= centre.x <= 0x8000_0000,
    ;
    assert(-0x4000_0000_0000_0000 <= size * centre.y <= 0x4000_0000_0000_0000)
        by (nonlinear_arith)
        requires
            -0x8000_0000 <= size <= 0x8000_0000,
            -0x8000_0000 <= centre.y <= 0x8000_0000,
    ;
    assert(image.0 == centre.x + (point.x - centre.x) * size) by (nonlinear_arith)
        requires
            image.0 == size * point.x + (centre.x - size * centre.x),
    ;
    assert(image.1 == centre.y + (point.y - centre.y) * size) by (nonlinear_arith)
        requires
            image.1 == size * point.y + (centre.y - size * centre.y),
    ;
}

/// Every change leaves its own centre where it is, whatever its angle or factor, as long
/// as that is a number.
pub proof fn lemma_centre_unchanged(change: Change)
    requires
        change.amount_spec().finite_spec(),
    ensures
        change.centre_spec().changed(change) == Some(change.centre_spec()),
{
    let centre = change.centre_spec();
    match change {
        Change::Rotate { angle, centre } => {
            if quarters_of(angle) is Some {
                lemma_centre_stays(
                    false,
                    quarters_of(angle)->Some_0,
                    angle.whole_spec()->Some_0,
                    1,
                    centre,
                );
            }
        },
        Change::Scale { factor, centre } => {
            if factor.whole_spec() is Some {
                crate::number::lemma_whole_range(factor);
                lemma_centre_stays(false, 0, 0, factor.whole_spec()->Some_0, centre);
            }
        },
        Change::Reflect { angle, centre } => {
            if mirror_turns(angle) is Some {
                lemma_centre_stays(true, mirror_turns(angle)->Some_0, 0, 1, centre);
            }
        },
    }
}

/// A whole number is a number.
pub proof fn lemma_whole_is_finite(value: Real)
    requires
        value.whole_spec() is Some,
    ensures
        value.finite_spec(),
{
    if value.zero_spec() {
        assert(value.bits == 0 || value.bits == 0x8000_0000_0000_0000);
    }
}

/// A grid that lies at one point, turned about that point by whole degrees, stays where
/// it is, and its angle takes up the turn: the sum of the two angles, kept from 0 up to
/// 360. No quarter turn is asked for, since nothing leaves the whole database units.
pub proof fn lemma_turn_in_place(grid: Grid, angle: Real)
    requires
        grid.corner_x == grid.origin,
        grid.corner_y == grid.origin,
        grid.angle.whole_spec() is Some,
        angle.whole_spec() is Some,
    ensures
        grid_changed(grid, Change::Rotate { angle, centre: grid.origin }) == Some(
            Grid {
                angle: Real::of_whole(
                    angle_sum(grid.angle.whole_spec()->Some_0, angle.whole_spec()->Some_0),
                ),
                ..grid
            },
        ),
{
    lemma_whole_is_finite(angle);
    lemma_centre_unchanged(Change::Rotate { angle, centre: grid.origin });
}

/// A text turned about its own origin by whole degrees stays where it is, and its angle
/// takes up the turn.
pub proof fn lemma_text_turn_in_place(text: TextView, angle: Real)
    requires
        text.angle.whole_spec() is Some,
        angle.whole_spec() is Some,
        whole_sized(text.angle.whole_spec()->Some_0 + angle.whole_spec()->Some_0),
    ensures
        text_changed(text, Change::Rotate { angle, centre: text.origin }) == Some(
            TextView {
                angle: Real::of_whole(
                    text.angle.whole_spec()->Some_0 + angle.whole_spec()->Some_0,
                ),
                ..text
            },
        ),
{
    lemma_whole_is_finite(angle);
    lemma_centre_unchanged(Change::Rotate { angle, centre: text.origin });
}

/// The corner of a grid after an enlargement about a centre; `None` where it cannot be
/// said in whole database units, or lies beyond thirty-two signed bits.
#[verifier::spinoff_prover]
fn scale_corner(
    grid: &Grid,
    origin: Point,
    corner: Point,
    count: u32,
    factor: Real,
    centre: Point,
) -> (found: Option<Point>)
    ensures
        found.is_some() <==> (corner_scaled(*grid, origin, corner, count, factor, centre)
            matches Some(place) && is_coordinate(place.0) && is_coordinate(place.1)),
        found matches Some(point) ==> Some((point.x as int, point.y as int)) == corner_scaled(
            *grid,
            origin,
            corner,
            count,
            factor,
            centre,
        ),
{
    if count == 0 {
        return Some(origin);
    }
    let whole = match factor.whole() {
        Some(whole) => whole,
        None => {
            if centre.x != 0 || centre.y != 0 {
                return None;
            }
            let wide = stretch(corner.x as i64 - grid.origin.x as i64, factor);
            let high = stretch(corner.y as i64 - grid.origin.y as i64, factor);
            return match (wide, high) {
                (Some(wide), Some(high)) => {
                    let x: i64 = origin.x as i64 + wide;
                    let y: i64 = origin.y as i64 + high;
                    if x < -0x8000_0000 || x > 0x7FFF_FFFF || y < -0x8000_0000 || y > 0x7FFF_FFFF {
                        None
                    } else {
                        Some(Point { x: x as i32, y: y as i32 })
                    }
                },
                _ => None,
            };
        },
    };
    let size: i128 = whole as i128;
    let way_x: i128 = corner.x as i128 - grid.origin.x as i128;
    let way_y: i128 = corner.y as i128 - grid.origin.y as i128;
    assert(-0x8000_0000_0000_0000 <= size * way_x <= 0x8000_0000_0000_0000) by (nonlinear_arith)
        requires
            -0x8000_0000 <= size <= 0x7FFF_FFFF,
            -0x1_0000_0000 <= way_x <= 0x1_0000_0000,
    ;
    assert(-0x8000_0000_0000_0000 <= size * way_y <= 0x8000_0000_0000_0000) by (nonlinear_arith)
        requires
            -0x8000_0000 <= size <= 0x7FFF_FFFF,
            -0x1_0000_0000 <= way_y <= 0x1_0000_0000,
    ;
    let mut x: i128 = origin.x as i128 + size * way_x;
    let mut y: i128 = origin.y as i128 + size * way_y;
    if !(whole == 1 || (centre.x == 0 && centre.y == 0)) {
        let quarters = match quarter_turns(grid.angle) {
            Some(quarters) => quarters,
            None => {
                return None;
            },
        };
        let (share_x, share_y): (i128, i128) = if quarters == 0 {
            (centre.x as i128, centre.y as i128)
        } else if quarters == 1 {
            (-(centre.y as i128), centre.x as i128)
        } else if quarters == 2 {
            (-(centre.x as i128), -(centre.y as i128))
        } else {
            (centre.y as i128, -(centre.x as i128))
        };
        let less: i128 = 1 - size;
        let many: i128 = count as i128;
        assert(-0x1_0000_0000_0000_0000 <= less * share_x <= 0x1_0000_0000_0000_0000)
            by (nonlinear_arith)
            requires
                -0x8000_0000 <= less <= 0x8000_0001,
                -0x8000_0000 <= share_x <= 0x8000_0000,
        ;
        assert(-0x1_0000_0000_0000_0000 <= less * share_y <= 0x1_0000_0000_0000_0000)
            by (nonlinear_arith)
            requires
                -0x8000_0000 <= less <= 0x8000_0001,
                -0x8000_0000 <= share_y <= 0x8000_0000,
        ;
        let part_x: i128 = less * share_x;
        let part_y: i128 = less * share_y;
        assert(-0x1_0000_0000_0000_0000_0000_0000 <= many * part_x
            <= 0x1_0000_0000_0000_0000_0000_0000) by (nonlinear_arith)
            requires
                0 <= many <= 0xFFFF_FFFF,
                -0x1_0000_0000_0000_0000 <= part_x <= 0x1_0000_0000_0000_0000,
        ;
        assert(-0x1_0000_0000_0000_0000_0000_0000 <= many * part_y
            <= 0x1_0000_0000_0000_0000_0000_0000) by (nonlinear_arith)
            requires
                0 <= many <= 0xFFFF_FFFF,
                -0x1_0000_0000_0000_0000 <= part_y <= 0x1_0000_0000_0000_0000,
        ;
        x = x + many * part_x;
        y = y + many * part_y;
    }
    if x < -0x8000_0000 || x > 0x7FFF_FFFF || y < -0x8000_0000 || y > 0x7FFF_FFFF {
        None
    } else {
        Some(Point { x: x as i32, y: y as i32 })
    }
}

impl Grid {
    /// Changes the grid. Where the change cannot be made exactly the grid
    /// stays as it is and `false` is returned.
    pub fn change(&mut self, change: Change) -> (done: bool)
        ensures
            match grid_changed(*old(self), change) {
                Some(after) => done && *final(self) == after,
                None => !done && *final(self) == *old(self),
            },
    {
        match change {
            Change::Rotate { angle, centre } => {
                match (
                    self.origin.change(change),
                    self.corner_x.change(change),
                    self.corner_y.change(change),
                    sum_of_turns(self.angle, angle),
                ) {
                    (Some(origin), Some(corner_x), Some(corner_y), Some(turned)) => {
                        self.origin = origin;
                        self.corner_x = corner_x;
                        self.corner_y = corner_y;
                        self.angle = turned;
                        true
                    },
                    _ => false,
                }
            },
            Change::Scale { factor, centre } => {
                match (self.origin.change(change), multiply(self.magnification, factor)) {
                    (Some(origin), Some(enlarged)) => {
                        let across = scale_corner(self, origin, self.corner_x, self.columns, factor, centre);
                        let up = scale_corner(self, origin, self.corner_y, self.rows, factor, centre);
                        match (across, up) {
                            (Some(corner_x), Some(corner_y)) => {
                                self.origin = origin;
                                self.corner_x = corner_x;
                                self.corner_y = corner_y;
                                self.magnification = enlarged;
                                true
                            },
                            _ => false,
                        }
                    },
                    _ => false,
                }
            },
            Change::Reflect { angle, centre } => {
                if angle.is_zero() && centre.y == 0 {
                    self.x_reflection = !self.x_reflection;
                    return true;
                }
                match (self.origin.change(change), self.spacing(), self.angle.whole(), angle.whole()) {
                    (Some(origin), Some((across, up)), Some(own), Some(line)) => {
                        match (across.change(change), up.change(change)) {
                            (Some(spacing_x), Some(spacing_y)) => {
                                let rest = signed_rest_of(2 * (line as i64) - own as i64, 360);
                                match Grid::with_spacing(
                                    origin,
                                    self.columns,
                                    self.rows,
                                    spacing_x,
                                    spacing_y,
                                    self.magnification,
                                    Real::from_whole(rest as i32),
                                    self.x_reflection,
                                ) {
                                    Some(grid) => {
                                        *self = grid;
                                        true
                                    },
                                    None => false,
                                }
                            },
                            _ => false,
                        }
                    },
                    _ => false,
                }
            },
        }
    }

    /// Turns the grid counter-clockwise about `centre` by `angle` degrees.
    pub fn rotate(&mut self, angle: Real, centre: Point) -> (done: bool)
        ensures
            match grid_changed(*old(self), Change::Rotate { angle, centre }) {
                Some(after) => done && *final(self) == after,
                None => !done && *final(self) == *old(self),
            },
    {
        self.change(Change::Rotate { angle, centre })
    }

    /// Enlarges the grid about `centre` by `factor`.
    pub fn scale(&mut self, factor: Real, centre: Point) -> (done: bool)
        ensures
            match grid_changed(*old(self), Change::Scale { factor, centre }) {
                Some(after) => done && *final(self) == after,
                None => !done && *final(self) == *old(self),
            },
    {
        self.change(Change::Scale { factor, centre })
    }

    /// Mirrors the grid about the line through `centre` at `angle` degrees.
    pub fn reflect(&mut self, angle: Real, centre: Point) -> (done: bool)
        ensures
            match grid_changed(*old(self), Change::Reflect { angle, centre }) {
                Some(after) => done && *final(self) == after,
                None => !done && *final(self) == *old(self),
            },
    {
        self.change(Change::Reflect { angle, centre })
    }
}

/// A reference under a change: its grid changed, and what it places left alone.
pub open spec fn reference_changed(reference: ReferenceView, change: Change) -> Option<
    ReferenceView,
> {
    match grid_changed(reference.grid, change) {
        Some(grid) => Some(ReferenceView { grid, ..reference }),
        None => None,
    }
}

impl Reference {
    /// Changes the grid of the reference. Where the change cannot be made in whole
    /// numbers the reference stays as it is and `false` is returned.
    pub fn change(&mut self, change: Change) -> (done: bool)
        ensures
            match reference_changed(old(self)@, change) {
                Some(after) => done && final(self)@ == after,
                None => !done && final(self)@ == old(self)@,
            },
    {
        self.grid.change(change)
    }

    /// Turns the reference counter-clockwise about `centre` by `angle` degrees.
    pub fn rotate(&mut self, angle: Real, centre: Point) -> (done: bool)
        ensures
            match reference_changed(old(self)@, Change::Rotate { angle, centre }) {
                Some(after) => done && final(self)@ == after,
                None => !done && final(self)@ == old(self)@,
            },
    {
        self.change(Change::Rotate { angle, centre })
    }

    /// Enlarges the reference about `centre` by `factor`.
    pub fn scale(&mut self, factor: Real, centre: Point) -> (done: bool)
        ensures
            match reference_changed(old(self)@, Change::Scale { factor, centre }) {
                Some(after) => done && final(self)@ == after,
                None => !done && final(self)@ == old(self)@,
            },
    {
        self.change(Change::Scale { factor, centre })
    }

    /// Mirrors the reference about the line through `centre` at `angle` degrees.
    pub fn reflect(&mut self, angle: Real, centre: Point) -> (done: bool)
        ensures
            match reference_changed(old(self)@, Change::Reflect { angle, centre }) {
                Some(after) => done && final(self)@ == after,
                None => !done && final(self)@ == old(self)@,
            },
    {
        self.change(Change::Reflect { angle, centre })
    }
}


/// What can be turned, enlarged and mirrored in whole numbers.
pub trait Changeable: Sized + View {
    /// The thing under a change; `None` where the change cannot be made in whole
    /// numbers.
    spec fn altered(view: Self::V, change: Change) -> Option<Self::V>;

    /// Changes the thing. Where the change cannot be made in whole numbers it stays as
    /// it is and `false` is returned.
    fn alter(&mut self, change: Change) -> (done: bool)
        ensures
            match Self::altered(old(self)@, change) {
                Some(after) => done && final(self)@ == after,
                None => !done && final(self)@ == old(self)@,
            },
    ;
}

impl Changeable for Polygon {
    open spec fn altered(view: PolygonView, change: Change) -> Option<PolygonView> {
        match points_changed(view.points, change) {
            Some(points) => Some(PolygonView { points, ..view }),
            None => None,
        }
    }

    fn alter(&mut self, change: Change) -> (done: bool) {
        self.change(change)
    }
}

impl Changeable for Path {
    open spec fn altered(view: PathView, change: Change) -> Option<PathView> {
        match points_changed(view.points, change) {
            Some(points) => Some(PathView { points, ..view }),
            None => None,
        }
    }

    fn alter(&mut self, change: Change) -> (done: bool) {
        self.change(change)
    }
}

impl Changeable for Text {
    open spec fn altered(view: TextView, change: Change) -> Option<TextView> {
        text_changed(view, change)
    }

    fn alter(&mut self, change: Change) -> (done: bool) {
        self.change(change)
    }
}

impl Changeable for Reference {
    open spec fn altered(view: ReferenceView, change: Change) -> Option<ReferenceView> {
        reference_changed(view, change)
    }

    fn alter(&mut self, change: Change) -> (done: bool) {
        self.change(change)
    }
}

/// An element under a change.
pub open spec fn element_changed(element: ElementView, change: Change) -> Option<ElementView> {
    match element {
        ElementView::Path(path) => match Path::altered(path, change) {
            Some(after) => Some(ElementView::Path(after)),
            None => None,
        },
        ElementView::Polygon(polygon) => match Polygon::altered(polygon, change) {
            Some(after) => Some(ElementView::Polygon(after)),
            None => None,
        },
        ElementView::Text(text) => match text_changed(text, change) {
            Some(after) => Some(ElementView::Text(after)),
            None => None,
        },
        ElementView::Reference(reference) => match reference_changed(reference, change) {
            Some(after) => Some(ElementView::Reference(after)),
            None => None,
        },
    }
}

impl Element {
    /// Changes the element. Where the change cannot be made in whole numbers the
    /// element stays as it is and `false` is returned.
    pub fn change(&mut self, change: Change) -> (done: bool)
        ensures
            match element_changed(old(self)@, change) {
                Some(after) => done && final(self)@ == after,
                None => !done && final(self)@ == old(self)@,
            },
    {
        match self {
            Element::Path(path) => path.change(change),
            Element::Polygon(polygon) => polygon.change(change),
            Element::Text(text) => text.change(change),
            Element::Reference(reference) => reference.change(change),
        }
    }

    /// Turns the element counter-clockwise about `centre` by `angle` degrees.
    pub fn rotate(&mut self, angle: Real, centre: Point) -> (done: bool)
        ensures
            match element_changed(old(self)@, Change::Rotate { angle, centre }) {
                Some(after) => done && final(self)@ == after,
                None => !done && final(self)@ == old(self)@,
            },
    {
        self.change(Change::Rotate { angle, centre })
    }

    /// Enlarges the element about `centre` by `factor`.
    pub fn scale(&mut self, factor: Real, centre: Point) -> (done: bool)
        ensures
            match element_changed(old(self)@, Change::Scale { factor, centre }) {
                Some(after) => done && final(self)@ == after,
                None => !done && final(self)@ == old(self)@,
            },
    {
        self.change(Change::Scale { factor, centre })
    }

    /// Mirrors the element about the line through `centre` at `angle` degrees.
    pub fn reflect(&mut self, angle: Real, centre: Point) -> (done: bool)
        ensures
            match element_changed(old(self)@, Change::Reflect { angle, centre }) {
                Some(after) => done && final(self)@ == after,
                None => !done && final(self)@ == old(self)@,
            },
    {
        self.change(Change::Reflect { angle, centre })
    }
}

/// The items of a list under a change; `None` where one of them cannot be changed.
pub open spec fn all_altered<T: Changeable>(list: Seq<T::V>, change: Change) -> Option<Seq<T::V>> {
    if forall|i: int| 0 <= i < list.len() ==> T::altered(#[trigger] list[i], change) is Some {
        Some(Seq::new(list.len(), |i: int| T::altered(list[i], change)->Some_0))
    } else {
        None
    }
}

/// A copy of the list with every item changed; `None` where one of them cannot be
/// changed.
pub fn change_list<T: Changeable + Shape>(list: &Vec<T>, change: Change) -> (changed: Option<
    Vec<T>,
>)
    ensures
        match changed {
            Some(after) => all_altered::<T>(views(list@), change) == Some(views(after@)),
            None => all_altered::<T>(views(list@), change).is_none(),
        },
{
    let mut after: Vec<T> = Vec::new();
    let mut index: usize = 0;
    while index < list.len()
        invariant
            index <= list.len(),
            after@.len() == index,
            forall|i: int|
                0 <= i < index ==> T::altered(#[trigger] views(list@)[i], change) is Some,
            forall|i: int|
                0 <= i < index ==> (#[trigger] after@[i])@ == T::altered(
                    list@[i]@,
                    change,
                )->Some_0,
        decreases list.len() - index,
    {
        let mut item = list[index].duplicate();
        assert(views(list@)[index as int] == list@[index as int]@);
        if !item.alter(change) {
            return None;
        }
        after.push(item);
        index = index + 1;
    }
    assert(views(after@) =~= Seq::new(
        list@.len(),
        |i: int| T::altered(views(list@)[i], change)->Some_0,
    ));
    Some(after)
}

/// A cell under a change: everything in it changed; `None` where something in it
/// cannot be changed.
pub open spec fn cell_changed(cell: CellView, change: Change) -> Option<CellView> {
    match (
        all_altered::<Polygon>(cell.polygons, change),
        all_altered::<Path>(cell.paths, change),
        all_altered::<Reference>(cell.references, change),
        all_altered::<Text>(cell.texts, change),
    ) {
        (Some(polygons), Some(paths), Some(references), Some(texts)) => Some(
            CellView { name: cell.name, polygons, paths, references, texts },
        ),
        _ => None,
    }
}

impl Cell {
    /// Changes everything in the cell. Where something cannot be changed in whole
    /// numbers the cell stays as it is and `false` is returned.
    pub fn change(&mut self, change: Change) -> (done: bool)
        ensures
            match cell_changed(old(self)@, change) {
                Some(after) => done && final(self)@ == after,
                None => !done && final(self)@ == old(self)@,
            },
    {
        let polygons = match change_list(&self.polygons, change) {
            Some(list) => list,
            None => {
                return false;
            },
        };
        let paths = match change_list(&self.paths, change) {
            Some(list) => list,
            None => {
                return false;
            },
        };
        let references = match change_list(&self.references, change) {
            Some(list) => list,
            None => {
                return false;
            },
        };
        let texts = match change_list(&self.texts, change) {
            Some(list) => list,
            None => {
                return false;
            },
        };
        self.polygons = polygons;
        self.paths = paths;
        self.references = references;
        self.texts = texts;
        true
    }

    /// Turns everything in the cell counter-clockwise about `centre` by `angle` degrees.
    pub fn rotate(&mut self, angle: Real, centre: Point) -> (done: bool)
        ensures
            match cell_changed(old(self)@, Change::Rotate { angle, centre }) {
                Some(after) => done && final(self)@ == after,
                None => !done && final(self)@ == old(self)@,
            },
    {
        self.change(Change::Rotate { angle, centre })
    }

    /// Enlarges everything in the cell about `centre` by `factor`.
    pub fn scale(&mut self, factor: Real, centre: Point) -> (done: bool)
        ensures
            match cell_changed(old(self)@, Change::Scale { factor, centre }) {
                Some(after) => done && final(self)@ == after,
                None => !done && final(self)@ == old(self)@,
            },
    {
        self.change(Change::Scale { factor, centre })
    }
}

} // verus!
