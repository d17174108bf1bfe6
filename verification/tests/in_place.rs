use gdsr::affine::{change_points, Change};
use gdsr::element::{Element, Instance, Reference};
use gdsr::flatten::{Placed, Placement};
use gdsr::grid::Grid;
use gdsr::number::Real;
use gdsr::point::Point;
use gdsr::polygon::Polygon;
use gdsr::text::{HorizontalPresentation, Text, VerticalPresentation};

fn number(value: f64) -> Real {
    Real::from_bits(value.to_bits())
}

fn label(origin: Point, angle: f64) -> Text {
    Text::new(
        "t".to_string(),
        origin,
        0,
        number(1.0),
        number(angle),
        false,
        VerticalPresentation::Top,
        HorizontalPresentation::Left,
    )
    .unwrap()
}

#[test]
fn a_grid_at_the_centre_takes_up_any_whole_turn() {
    let mut grid = Grid { angle: number(10.0), ..Grid::single() };
    let before = grid;
    assert!(grid.rotate(number(-20.0), Point::new(0, 0)));
    assert_eq!(grid, Grid { angle: number(350.0), ..before });
    assert!(grid.rotate(number(33.0), Point::new(0, 0)));
    assert_eq!(grid, Grid { angle: number(23.0), ..before });
    let corner = Point::new(7, -9);
    let mut away = Grid::new(corner, 1, 1, corner, corner, number(2.0), number(45.0), true);
    assert!(away.rotate(number(45.0), corner));
    assert_eq!(away, Grid::new(corner, 1, 1, corner, corner, number(2.0), number(90.0), true));
    assert!(!away.rotate(number(45.0), Point::new(0, 0)));
    assert!(!away.rotate(number(0.5), corner));
    assert_eq!(away.angle, number(90.0));
}

#[test]
fn a_grid_with_corners_off_the_centre_needs_quarter_turns() {
    let mut grid = Grid::new(
        Point::new(0, 0),
        2,
        1,
        Point::new(20, 0),
        Point::new(0, 0),
        number(1.0),
        number(10.0),
        false,
    );
    let before = grid;
    assert!(!grid.rotate(number(-20.0), Point::new(0, 0)));
    assert_eq!(grid, before);
    assert!(grid.rotate(number(90.0), Point::new(0, 0)));
    assert_eq!(grid.corner_x, Point::new(0, 20));
    assert_eq!(grid.angle, number(100.0));
}

#[test]
fn a_text_at_the_centre_takes_up_any_whole_turn() {
    let mut text = label(Point::new(3, 4), 30.0);
    assert!(text.rotate(number(45.0), Point::new(3, 4)));
    assert_eq!((text.origin, text.angle), (Point::new(3, 4), number(75.0)));
    assert!(text.rotate(number(-200.0), Point::new(3, 4)));
    assert_eq!((text.origin, text.angle), (Point::new(3, 4), number(-125.0)));
    assert!(!text.rotate(number(45.0), Point::new(3, 5)));
    assert!(text.reflect(number(10.0), Point::new(3, 4)));
    assert_eq!((text.origin, text.angle), (Point::new(3, 4), number(145.0)));
}

#[test]
fn the_centre_stays_under_every_change() {
    let centre = Point::new(-6, 11);
    assert_eq!(centre.rotate(number(30.0), centre), Some(centre));
    assert_eq!(centre.rotate(number(0.25), centre), Some(centre));
    assert_eq!(centre.scale(number(1.5), centre), Some(centre));
    assert_eq!(centre.scale(number(1e300), centre), Some(centre));
    assert_eq!(centre.reflect(number(10.0), centre), Some(centre));
    assert_eq!(centre.rotate(number(90.0), centre), Some(centre));
    assert_eq!(centre.rotate(number(f64::NAN), centre), None);
    assert_eq!(centre.scale(number(f64::INFINITY), centre), None);
    let near = Point::new(-6, 12);
    assert_eq!(near.rotate(number(30.0), centre), None);
    assert_eq!(near.scale(number(1.5), centre), None);
    assert_eq!(near.reflect(number(10.0), centre), None);
    assert_eq!(near.rotate(number(90.0), centre), Some(Point::new(-7, 11)));
}

#[test]
fn points_change_one_by_one() {
    let centre = Point::new(2, 2);
    let turn = Change::Rotate { angle: number(30.0), centre };
    assert_eq!(change_points(&vec![centre, centre], turn), Some(vec![centre, centre]));
    assert_eq!(change_points(&vec![centre, Point::new(3, 2)], turn), None);
    assert_eq!(change_points(&vec![], turn), Some(vec![]));
    let quarter = Change::Rotate { angle: number(-90.0), centre };
    assert_eq!(
        change_points(&vec![centre, Point::new(3, 2)], quarter),
        Some(vec![centre, Point::new(2, 1)])
    );
    let mut polygon = Polygon::new(
        vec![Point::new(0, 0), Point::new(4, 0), Point::new(0, 4)],
        1,
        0,
    )
    .unwrap();
    let before = polygon.copy();
    assert!(!polygon.rotate(number(30.0), Point::new(0, 0)));
    assert_eq!(polygon.points, before.points);
}

#[test]
fn an_axis_without_copies_has_no_spacing() {
    let none = Grid::new(
        Point::new(5, 5),
        0,
        0,
        Point::new(9, 9),
        Point::new(-3, 8),
        number(1.0),
        number(0.0),
        false,
    );
    assert_eq!(none.spacing(), Some((Point::new(0, 0), Point::new(0, 0))));
    let slanted = Grid { angle: number(12.5), ..none };
    assert_eq!(slanted.spacing(), Some((Point::new(0, 0), Point::new(0, 0))));
    let columns_only = Grid::new(
        Point::new(0, 0),
        4,
        0,
        Point::new(40, 0),
        Point::new(0, 99),
        number(1.0),
        number(0.0),
        false,
    );
    assert_eq!(columns_only.spacing(), Some((Point::new(10, 0), Point::new(0, 0))));
    assert_eq!(Grid { angle: number(10.0), ..Grid::single() }.spacing(), Some((Point::new(0, 0), Point::new(0, 0))));
    assert_eq!(Grid { angle: number(10.0), ..columns_only }.spacing(), None);
}

#[test]
fn a_grid_without_spacing_needs_no_quarter_turn() {
    let origin = Point::new(1, 2);
    let still = Grid::with_spacing(
        origin,
        3,
        0,
        Point::new(0, 0),
        Point::new(5, 5),
        number(1.0),
        number(10.0),
        false,
    );
    assert_eq!(
        still,
        Some(Grid::new(origin, 3, 0, origin, origin, number(1.0), number(10.0), false))
    );
    let moving = Grid::with_spacing(
        origin,
        3,
        1,
        Point::new(1, 0),
        Point::new(0, 0),
        number(1.0),
        number(10.0),
        false,
    );
    assert_eq!(moving, None);
}

#[test]
fn the_least_whole_number_becomes_a_double() {
    let least = Real::from_whole(i32::MIN);
    assert_eq!(least.to_bits(), (i32::MIN as f64).to_bits());
    assert_eq!(least.to_bits(), 0xC1E0_0000_0000_0000);
    assert_eq!(least.whole(), None);
    assert_eq!(Real::from_whole(i32::MIN + 1).whole(), Some(i32::MIN + 1));
    assert!(least.is_finite());
    assert!(!number(f64::NAN).is_finite());
    assert!(!number(f64::NEG_INFINITY).is_finite());
}

#[test]
fn a_factor_with_a_fraction_moves_points_that_stay_whole() {
    let origin = Point::new(0, 0);
    assert_eq!(Point::new(2, 4).scale(number(0.5), origin), Some(Point::new(1, 2)));
    assert_eq!(Point::new(3, 0).scale(number(0.5), origin), None);
    assert_eq!(Point::new(3, 5).scale(number(1.5), Point::new(1, 1)), Some(Point::new(4, 7)));
    assert_eq!(Point::new(8, -4).scale(number(-0.25), origin), Some(Point::new(-2, 1)));
    assert_eq!(Point::new(2, 0).scale(number(2.5), origin), Some(Point::new(5, 0)));
    assert_eq!(Point::new(-1024, 512).scale(number(0.001953125), origin), Some(Point::new(-2, 1)));
    assert_eq!(Point::new(3, 3).scale(number(1.0 / 3.0), origin), None);
    assert_eq!(Point::new(10, 0).scale(number(0.1), origin), None);
    assert_eq!(Point::new(1, 0).scale(number(1e300), origin), None);
    assert_eq!(Point::new(1, 0).scale(number(5e-324), origin), None);
    assert_eq!(Point::new(1, 0).scale(number(1e-300), origin), None);
    assert_eq!(Point::new(i32::MAX, 0).scale(number(1.5), origin), None);
    assert_eq!(Point::new(1 << 30, 0).scale(number(2.5), origin), None);
    assert_eq!(Point::new(1 << 30, 0).scale(number(1.5), origin), Some(Point::new(3 << 29, 0)));
    assert_eq!(
        Point::new(i32::MIN, i32::MAX).scale(number(0.5), Point::new(i32::MAX, i32::MIN)),
        None
    );
    assert_eq!(
        Point::new(i32::MIN, i32::MAX - 1).scale(number(0.5), Point::new(i32::MAX - 1, i32::MIN)),
        Some(Point::new(-1, -1))
    );
    assert_eq!(Point::new(2, 4).scale(number(4294967296.5), origin), None);
    assert_eq!(Point::new(0, 2).scale(number(1073741823.5), origin), Some(Point::new(0, i32::MAX)));
    let mut polygon = Polygon::new(
        vec![Point::new(0, 0), Point::new(40, 0), Point::new(0, 20)],
        1,
        0,
    )
    .unwrap();
    assert!(polygon.scale(number(0.25), Point::new(4, 4)));
    assert_eq!(polygon.points, vec![Point::new(3, 3), Point::new(13, 3), Point::new(3, 8), Point::new(3, 3)]);
    assert!(!polygon.scale(number(0.5), Point::new(4, 4)));
    assert_eq!(polygon.points, vec![Point::new(3, 3), Point::new(13, 3), Point::new(3, 8), Point::new(3, 3)]);
}

#[test]
fn what_lies_at_the_origin_goes_through_a_slanted_copy() {
    let slanted = Grid::new(
        Point::new(100, 50),
        2,
        1,
        Point::new(120, 70),
        Point::new(100, 50),
        number(2.0),
        number(45.0),
        true,
    );
    let copy = Placement { grid: slanted, column: 1, row: 0 };
    let motion = copy.motion().unwrap();
    assert_eq!((motion.quarters, motion.degrees, motion.factor), (4, 45, 2));
    assert_eq!((motion.offset_x, motion.offset_y), (110, 60));
    assert_eq!(motion.apply(Point::new(0, 0)), Some(Point::new(110, 60)));
    assert_eq!(motion.apply(Point::new(1, 0)), None);
    let text = Placed::new(Element::Text(label(Point::new(0, 0), 30.0))).through(copy);
    match text.resolve() {
        Some(Element::Text(found)) => {
            assert_eq!(found.origin, Point::new(110, 60));
            assert_eq!(found.angle, number(15.0));
            assert_eq!(found.magnification, number(2.0));
        }
        _ => panic!("the text has an image"),
    }
    let aside = Placed::new(Element::Text(label(Point::new(0, 1), 30.0))).through(copy);
    assert!(aside.resolve().is_none());
    let inner = Reference::new(
        Instance::Cell("leaf".to_string()),
        Some(Grid { angle: number(10.0), ..Grid::single() }),
    );
    match Placed::new(Element::Reference(inner)).through(copy).resolve() {
        Some(Element::Reference(found)) => {
            let at = Point::new(110, 60);
            assert_eq!(
                found.grid,
                Grid::new(at, 1, 1, at, at, number(2.0), number(55.0), true)
            );
        }
        _ => panic!("the reference has an image"),
    }
    let spread = Reference::new(
        Instance::Cell("leaf".to_string()),
        Some(Grid::new(
            Point::new(0, 0),
            2,
            1,
            Point::new(8, 0),
            Point::new(0, 0),
            number(1.0),
            number(0.0),
            false,
        )),
    );
    assert!(Placed::new(Element::Reference(spread)).through(copy).resolve().is_none());
    let polygon = Polygon::new(vec![Point::new(0, 0), Point::new(4, 0), Point::new(0, 4)], 1, 0).unwrap();
    assert!(Placed::new(Element::Polygon(polygon)).through(copy).resolve().is_none());
}

#[test]
fn a_slanted_grid_is_enlarged_about_the_origin_of_the_coordinates() {
    let made = Grid::new(
        Point::new(10, 20),
        3,
        2,
        Point::new(36, 35),
        Point::new(0, 37),
        number(1.0),
        number(30.0),
        false,
    );
    let mut grid = made;
    assert!(grid.scale(number(2.0), Point::new(0, 0)));
    assert_eq!(
        grid,
        Grid::new(
            Point::new(20, 40),
            3,
            2,
            Point::new(72, 70),
            Point::new(0, 74),
            number(2.0),
            number(30.0),
            false,
        )
    );
    let mut other = made;
    assert!(!other.scale(number(2.0), Point::new(1, 0)));
    assert_eq!(other, made);
    assert!(other.scale(number(1.0), Point::new(1, 0)));
    assert_eq!(other, made);
    let mut uneven = Grid { angle: number(90.0), ..made };
    assert_eq!(uneven.spacing(), None);
    assert!(uneven.scale(number(-2.0), Point::new(1, 0)));
    assert_eq!(uneven.origin, Point::new(-17, -40));
    assert_eq!(uneven.corner_x, Point::new(-17 - 52, -40 - 30 + 9));
    assert_eq!(uneven.corner_y, Point::new(-17 + 20, -40 - 34 + 6));
    assert_eq!(uneven.magnification, number(-2.0));
}

#[test]
fn one_and_nothing_leave_a_double_as_it_is() {
    let mut text = label(Point::new(3, 4), 0.0);
    assert!(text.rotate(number(22.5), Point::new(3, 4)));
    assert_eq!(text.angle, number(22.5));
    assert!(text.scale(number(1.5), Point::new(3, 4)));
    assert_eq!((text.origin, text.magnification), (Point::new(3, 4), number(1.5)));
    assert!(text.scale(number(1.0), Point::new(0, 0)));
    assert_eq!(text.magnification, number(1.5));
    assert!(text.rotate(number(0.0), Point::new(3, 4)));
    assert_eq!(text.angle, number(22.5));
    assert!(!text.rotate(number(0.5), Point::new(3, 4)));
    assert!(!text.scale(number(2.0), Point::new(3, 4)));
    assert!(!label(Point::new(0, 0), 0.0).rotate(number(f64::INFINITY), Point::new(0, 0)));
    let mut even = label(Point::new(4, -8), 0.0);
    assert!(even.scale(number(0.25), Point::new(0, 0)));
    assert_eq!((even.origin, even.magnification), (Point::new(1, -2), number(0.25)));
    let mut grid = Grid::single();
    assert!(grid.rotate(number(22.5), Point::new(0, 0)));
    assert_eq!(grid, Grid { angle: number(22.5), ..Grid::single() });
    assert!(grid.rotate(number(-0.0), Point::new(0, 0)));
    assert_eq!(grid.angle, number(22.5));
    assert!(!grid.rotate(number(1.0), Point::new(0, 0)));
    let mut low = Grid { angle: number(-10.5), ..Grid::single() };
    assert!(!low.rotate(number(0.0), Point::new(0, 0)));
    let mut high = Grid { angle: number(360.0), ..Grid::single() };
    assert!(high.rotate(number(0.0), Point::new(0, 0)));
    assert_eq!(high.angle, number(0.0));
    let mut full = Grid { angle: number(359.75), ..Grid::single() };
    assert!(full.rotate(number(0.0), Point::new(0, 0)));
    assert_eq!(full.angle, number(359.75));
    let mut over = Grid { angle: number(360.25), ..Grid::single() };
    assert!(!over.rotate(number(0.0), Point::new(0, 0)));
}

#[test]
fn a_grid_is_enlarged_by_a_factor_with_a_fraction() {
    let made = Grid::new(
        Point::new(10, 20),
        2,
        1,
        Point::new(30, 40),
        Point::new(10, 20),
        number(1.0),
        number(45.0),
        false,
    );
    let mut grid = made;
    assert!(grid.scale(number(1.5), Point::new(0, 0)));
    assert_eq!(
        grid,
        Grid::new(
            Point::new(15, 30),
            2,
            1,
            Point::new(45, 60),
            Point::new(15, 30),
            number(1.5),
            number(45.0),
            false,
        )
    );
    assert!(!grid.scale(number(1.5), Point::new(0, 0)));
    let mut odd = Grid { corner_x: Point::new(31, 40), ..made };
    assert!(!odd.scale(number(1.5), Point::new(0, 0)));
    let mut aside = made;
    assert!(!aside.scale(number(1.5), Point::new(2, 0)));
    assert_eq!(aside, made);
    let mut doubled = Grid { magnification: number(2.0), ..made };
    assert!(!doubled.scale(number(1.5), Point::new(0, 0)));
}

#[test]
fn a_text_with_fractions_goes_through_a_plain_copy() {
    let plain = Grid::new(
        Point::new(100, 0),
        1,
        1,
        Point::new(100, 0),
        Point::new(100, 0),
        number(1.0),
        number(0.0),
        false,
    );
    let copy = Placement { grid: plain, column: 0, row: 0 };
    let mut text = label(Point::new(3, 4), 12.5);
    text.magnification = number(0.5);
    match Placed::new(Element::Text(text.copy())).through(copy).resolve() {
        Some(Element::Text(found)) => {
            assert_eq!(found.origin, Point::new(103, 4));
            assert_eq!(found.angle, number(12.5));
            assert_eq!(found.magnification, number(0.5));
        }
        _ => panic!("the text has an image"),
    }
    let turning = Placement { grid: Grid { angle: number(90.0), ..plain }, column: 0, row: 0 };
    assert!(Placed::new(Element::Text(text.copy())).through(turning).resolve().is_none());
    let growing = Placement { grid: Grid { magnification: number(2.0), ..plain }, column: 0, row: 0 };
    assert!(Placed::new(Element::Text(text.copy())).through(growing).resolve().is_none());
    let mirroring = Placement { grid: Grid { x_reflection: true, ..plain }, column: 0, row: 0 };
    assert!(Placed::new(Element::Text(text)).through(mirroring).resolve().is_none());
    let inner = Reference::new(
        Instance::Cell("leaf".to_string()),
        Some(Grid { angle: number(12.5), magnification: number(0.5), ..Grid::single() }),
    );
    match Placed::new(Element::Reference(inner)).through(copy).resolve() {
        Some(Element::Reference(found)) => {
            assert_eq!(found.grid.origin, Point::new(100, 0));
            assert_eq!(found.grid.angle, number(12.5));
            assert_eq!(found.grid.magnification, number(0.5));
        }
        _ => panic!("the reference has an image"),
    }
}
