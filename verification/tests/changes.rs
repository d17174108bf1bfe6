use gdsr::affine::{change_points, motion_of, Change};
use gdsr::cell::Cell;
use gdsr::element::{Element, Instance, Reference};
use gdsr::grid::Grid;
use gdsr::motion::Motion;
use gdsr::number::Real;
use gdsr::path::Path;
use gdsr::point::Point;
use gdsr::polygon::Polygon;
use gdsr::text::{HorizontalPresentation, Text, VerticalPresentation};

fn number(value: f64) -> Real {
    Real::from_bits(value.to_bits())
}

fn label(angle: f64, magnification: f64) -> Text {
    Text::new(
        "t".to_string(),
        Point::new(3, 4),
        0,
        number(magnification),
        number(angle),
        false,
        VerticalPresentation::Top,
        HorizontalPresentation::Left,
    )
    .unwrap()
}

fn triangle() -> Polygon {
    Polygon::new(vec![Point::new(0, 0), Point::new(4, 0), Point::new(0, 3)], 1, 2).unwrap()
}

#[test]
fn a_point_turns_about_a_centre() {
    let point = Point::new(5, 1);
    let centre = Point::new(2, 1);
    assert_eq!(point.rotate(number(0.0), centre), Some(Point::new(5, 1)));
    assert_eq!(point.rotate(number(90.0), centre), Some(Point::new(2, 4)));
    assert_eq!(point.rotate(number(180.0), centre), Some(Point::new(-1, 1)));
    assert_eq!(point.rotate(number(270.0), centre), Some(Point::new(2, -2)));
    assert_eq!(point.rotate(number(-90.0), centre), Some(Point::new(2, -2)));
    assert_eq!(point.rotate(number(3690.0), centre), Some(Point::new(2, 4)));
    assert_eq!(point.rotate(number(45.0), centre), None);
    assert_eq!(point.rotate(number(f64::NAN), centre), None);
    assert_eq!(centre.rotate(number(90.0), centre), Some(centre));
    assert_eq!(Point::new(i32::MAX, 0).rotate(number(180.0), Point::new(0, 0)), Some(Point::new(-i32::MAX, 0)));
    assert_eq!(Point::new(i32::MIN, 0).rotate(number(180.0), Point::new(0, 0)), None);
    assert_eq!(Point::new(i32::MAX, 0).rotate(number(90.0), Point::new(i32::MIN, i32::MAX)), None);
}

#[test]
fn a_point_moves_away_from_a_centre() {
    let point = Point::new(5, 1);
    let centre = Point::new(2, 2);
    assert_eq!(point.scale(number(1.0), centre), Some(point));
    assert_eq!(point.scale(number(3.0), centre), Some(Point::new(11, -1)));
    assert_eq!(point.scale(number(-1.0), centre), Some(Point::new(-1, 3)));
    assert_eq!(point.scale(number(0.0), centre), Some(centre));
    assert_eq!(point.scale(number(0.5), centre), None);
    assert_eq!(point.scale(number(2147483647.0), centre), None);
    assert_eq!(
        Point::new(i32::MAX, i32::MIN).scale(number(2147483647.0), Point::new(i32::MAX, i32::MIN)),
        Some(Point::new(i32::MAX, i32::MIN))
    );
    assert_eq!(Point::new(1 << 30, 0).scale(number(2.0), Point::new(0, 0)), None);
    assert_eq!(Point::new((1 << 30) - 1, 0).scale(number(2.0), Point::new(0, 0)), Some(Point::new(i32::MAX - 1, 0)));
}

#[test]
fn a_point_is_mirrored_about_a_line() {
    let point = Point::new(5, 1);
    let origin = Point::new(0, 0);
    assert_eq!(point.reflect(number(0.0), origin), Some(Point::new(5, -1)));
    assert_eq!(point.reflect(number(90.0), origin), Some(Point::new(-5, 1)));
    assert_eq!(point.reflect(number(45.0), origin), Some(Point::new(1, 5)));
    assert_eq!(point.reflect(number(135.0), origin), Some(Point::new(-1, -5)));
    assert_eq!(point.reflect(number(180.0), origin), Some(Point::new(5, -1)));
    assert_eq!(point.reflect(number(-45.0), origin), Some(Point::new(-1, -5)));
    assert_eq!(point.reflect(number(225.0), origin), Some(Point::new(1, 5)));
    assert_eq!(point.reflect(number(30.0), origin), None);
    let centre = Point::new(2, 3);
    assert_eq!(point.reflect(number(0.0), centre), Some(Point::new(5, 5)));
    assert_eq!(point.reflect(number(90.0), centre), Some(Point::new(-1, 1)));
    assert_eq!(point.reflect(number(45.0), centre), Some(Point::new(0, 6)));
    assert_eq!(centre.reflect(number(45.0), centre), Some(centre));
    for angle in [0.0, 45.0, 90.0, 135.0] {
        let once = point.reflect(number(angle), centre).unwrap();
        assert_eq!(once.reflect(number(angle), centre), Some(point));
    }
}

#[test]
fn a_change_is_a_motion() {
    let centre = Point::new(2, 3);
    assert_eq!(
        motion_of(Change::Rotate { angle: number(450.0), centre }),
        Some(Motion { mirror: false, quarters: 1, degrees: 450, factor: 1, offset_x: 5, offset_y: 1 })
    );
    assert_eq!(
        motion_of(Change::Scale { factor: number(-4.0), centre }),
        Some(Motion { mirror: false, quarters: 0, degrees: 0, factor: -4, offset_x: 10, offset_y: 15 })
    );
    assert_eq!(
        motion_of(Change::Reflect { angle: number(45.0), centre }),
        Some(Motion { mirror: true, quarters: 1, degrees: 0, factor: 1, offset_x: -1, offset_y: 1 })
    );
    assert_eq!(motion_of(Change::Reflect { angle: number(1.0), centre }), None);
    assert_eq!(Motion::around(true, 3, 7, 2, centre).apply(centre), Some(centre));
    assert_eq!(
        change_points(&vec![Point::new(0, 0), centre], Change::Scale { factor: number(2.0), centre }),
        Some(vec![Point::new(-2, -3), centre])
    );
}

#[test]
fn shapes_change_point_by_point() {
    let mut polygon = triangle();
    assert!(polygon.rotate(number(90.0), Point::new(0, 0)));
    assert_eq!(
        polygon.points,
        vec![Point::new(0, 0), Point::new(0, 4), Point::new(-3, 0), Point::new(0, 0)]
    );
    assert!(polygon.scale(number(2.0), Point::new(0, 4)));
    assert_eq!(polygon.points[2], Point::new(-6, -4));
    assert!(polygon.reflect(number(90.0), Point::new(0, 0)));
    assert_eq!(polygon.points[2], Point::new(6, -4));
    assert_eq!((polygon.layer, polygon.data_type), (1, 2));
    let before = polygon.copy();
    assert!(!polygon.rotate(number(1.0), Point::new(0, 0)));
    assert!(!polygon.scale(number(1000000000.0), Point::new(0, 0)));
    assert!(polygon.is_equal(&before, 1));

    let mut path =
        Path::new(vec![Point::new(1, 0), Point::new(3, 0)], 0, 0, None, Some(10)).unwrap();
    assert!(path.rotate(number(180.0), Point::new(1, 0)));
    assert_eq!(path.points, vec![Point::new(1, 0), Point::new(-1, 0)]);
    assert!(path.scale(number(5.0), Point::new(0, 0)));
    assert_eq!(path.points, vec![Point::new(5, 0), Point::new(-5, 0)]);
    assert_eq!(path.width, Some(10));
    assert!(path.reflect(number(45.0), Point::new(0, 0)));
    assert_eq!(path.points, vec![Point::new(0, 5), Point::new(0, -5)]);
    assert!(!path.reflect(number(44.0), Point::new(0, 0)));
}

#[test]
fn a_text_keeps_count_of_its_angle() {
    let mut text = label(30.0, 2.0);
    assert!(text.rotate(number(90.0), Point::new(0, 0)));
    assert_eq!((text.origin, text.angle), (Point::new(-4, 3), number(120.0)));
    assert!(text.rotate(number(270.0), Point::new(0, 0)));
    assert_eq!((text.origin, text.angle), (Point::new(3, 4), number(390.0)));
    assert!(text.scale(number(-3.0), Point::new(1, 1)));
    assert_eq!((text.origin, text.magnification), (Point::new(-5, -8), number(-6.0)));
    assert!(text.reflect(number(45.0), Point::new(0, 0)));
    assert_eq!((text.origin, text.angle), (Point::new(-8, -5), number(-300.0)));
    assert!(text.reflect(number(0.0), Point::new(0, 0)));
    assert_eq!((text.origin, text.angle), (Point::new(-8, 5), number(300.0)));
    let before = text.copy();
    assert!(!text.rotate(number(45.0), Point::new(0, 0)));
    assert!(!text.scale(number(0.5), Point::new(0, 0)));
    assert!(!text.scale(number(1000000000.0), Point::new(-8, 5)));
    assert!(text.is_equal(&before, 1));
    let mut slanted = label(12.5, 1.0);
    assert!(!slanted.rotate(number(90.0), Point::new(0, 0)));
    assert!(slanted.scale(number(2.0), Point::new(0, 0)));
    let mut fine = label(0.0, 1.5);
    assert!(!fine.scale(number(2.0), Point::new(0, 0)));
    assert!(fine.rotate(number(90.0), Point::new(0, 0)));
}

#[test]
fn a_grid_turns_with_its_corners() {
    let mut grid = Grid::with_spacing(
        Point::new(10, 0),
        2,
        3,
        Point::new(5, 0),
        Point::new(0, 7),
        number(1.0),
        number(0.0),
        false,
    )
    .unwrap();
    assert!(grid.rotate(number(90.0), Point::new(0, 0)));
    assert_eq!(grid.origin, Point::new(0, 10));
    assert_eq!(grid.angle, number(90.0));
    assert_eq!(grid.spacing(), Some((Point::new(5, 0), Point::new(0, 7))));
    assert_eq!((grid.corner_x, grid.corner_y), (Point::new(0, 20), Point::new(-21, 10)));
    assert!(grid.rotate(number(-180.0), Point::new(0, 0)));
    assert_eq!(grid.angle, number(270.0));
    assert_eq!(grid.origin, Point::new(0, -10));
    assert!(grid.rotate(number(450.0), Point::new(0, -10)));
    assert_eq!(grid.angle, number(0.0));
    assert_eq!(grid.spacing(), Some((Point::new(5, 0), Point::new(0, 7))));
    let mut slanted = Grid { angle: number(30.0), ..grid };
    assert!(slanted.rotate(number(90.0), Point::new(0, 0)));
    assert_eq!(slanted.angle, number(120.0));
    assert_eq!(slanted.origin, Point::new(10, 0));
    assert!(!slanted.rotate(number(30.0), Point::new(0, 0)));
    let mut off = Grid { angle: number(0.5), ..grid };
    assert!(!off.rotate(number(90.0), Point::new(0, 0)));
    assert_eq!(off.origin, grid.origin);
}

#[test]
fn a_grid_is_enlarged_with_its_spacings() {
    let mut grid = Grid::with_spacing(
        Point::new(10, 0),
        2,
        3,
        Point::new(5, 0),
        Point::new(0, 7),
        number(2.0),
        number(90.0),
        true,
    )
    .unwrap();
    assert!(grid.scale(number(3.0), Point::new(0, 0)));
    assert_eq!(grid.origin, Point::new(30, 0));
    assert_eq!(grid.magnification, number(6.0));
    assert_eq!(grid.spacing(), Some((Point::new(15, 0), Point::new(0, 21))));
    assert_eq!(grid.angle, number(90.0));
    assert!(grid.x_reflection);
    assert!(grid.scale(number(2.0), Point::new(1, 1)));
    assert_eq!(grid.origin, Point::new(59, -1));
    assert_eq!(grid.spacing(), Some((Point::new(29, -1), Point::new(-1, 41))));
    let before = grid;
    assert!(!grid.scale(number(1.5), Point::new(0, 0)));
    assert!(!grid.scale(number(1000000000.0), Point::new(0, 0)));
    assert_eq!(grid, before);
    let mut slanted = Grid { angle: number(30.0), ..Grid::single() };
    assert!(slanted.scale(number(2.0), Point::new(0, 0)));
    assert_eq!(slanted, Grid { angle: number(30.0), magnification: number(2.0), ..Grid::single() });
    let mut spread = Grid { columns: 2, corner_x: Point::new(4, 0), ..slanted };
    assert!(!spread.scale(number(2.0), Point::new(0, 1)));
    assert!(spread.scale(number(2.0), Point::new(0, 0)));
    assert_eq!(spread.corner_x, Point::new(8, 0));
}

#[test]
fn a_grid_is_mirrored() {
    let made = Grid::with_spacing(
        Point::new(10, 2),
        2,
        3,
        Point::new(5, 0),
        Point::new(0, 7),
        number(1.0),
        number(90.0),
        false,
    )
    .unwrap();
    let mut grid = made;
    assert!(grid.reflect(number(0.0), Point::new(5, 0)));
    assert_eq!(grid, Grid { x_reflection: true, ..made });
    assert!(grid.reflect(number(-0.0), Point::new(-5, 0)));
    assert_eq!(grid, made);
    assert!(grid.reflect(number(0.0), Point::new(0, 1)));
    assert_eq!(grid.origin, Point::new(10, 0));
    assert_eq!(grid.angle, number(-90.0));
    assert_eq!(grid.spacing(), Some((Point::new(5, 2), Point::new(0, -5))));
    assert!(!grid.x_reflection);
    let mut other = made;
    assert!(other.reflect(number(45.0), Point::new(0, 0)));
    assert_eq!(other.origin, Point::new(2, 10));
    assert_eq!(other.angle, number(0.0));
    assert_eq!(other.spacing(), Some((Point::new(0, 5), Point::new(7, 0))));
    let mut plain = Grid::single();
    assert!(plain.reflect(number(45.0), Point::new(0, 0)));
    assert_eq!(plain.angle, number(90.0));
    let mut odd = Grid { angle: number(45.0), ..Grid::single() };
    assert!(odd.reflect(number(45.0), Point::new(0, 0)));
    assert_eq!(odd, Grid { angle: number(45.0), ..Grid::single() });
    assert!(odd.reflect(number(10.0), Point::new(0, 0)));
    assert_eq!(odd, Grid { angle: number(-25.0), ..Grid::single() });
    assert!(!odd.reflect(number(10.0), Point::new(0, 1)));
    assert!(!odd.reflect(number(0.5), Point::new(0, 0)));
    assert_eq!(odd, Grid { angle: number(-25.0), ..Grid::single() });
    assert!(odd.reflect(number(0.0), Point::new(3, 0)));
    assert!(odd.x_reflection);
}

#[test]
fn elements_and_cells_change_as_a_whole() {
    let mut cell = Cell::new("c".to_string());
    cell.add(vec![
        Element::Polygon(triangle()),
        Element::Path(Path::new(vec![Point::new(1, 0), Point::new(3, 0)], 0, 0, None, None).unwrap()),
        Element::Text(label(0.0, 1.0)),
        Element::Reference(Reference::new(Instance::Cell("d".to_string()), None)),
    ]);
    assert!(cell.rotate(number(90.0), Point::new(0, 0)));
    assert_eq!(cell.polygons[0].points[1], Point::new(0, 4));
    assert_eq!(cell.paths[0].points[1], Point::new(0, 3));
    assert_eq!((cell.texts[0].origin, cell.texts[0].angle), (Point::new(-4, 3), number(90.0)));
    assert_eq!(cell.references[0].grid.angle, number(90.0));
    assert!(cell.scale(number(2.0), Point::new(0, 0)));
    assert_eq!(cell.polygons[0].points[1], Point::new(0, 8));
    assert_eq!(cell.texts[0].magnification, number(2.0));
    assert_eq!(cell.references[0].grid.magnification, number(2.0));
    let before = cell.copy();
    cell.add_element(Element::Text(label(0.5, 1.0)));
    let with_odd = cell.copy();
    assert!(!cell.rotate(number(90.0), Point::new(0, 0)));
    assert!(cell.is_equal(&with_odd, 1));
    assert!(!cell.is_equal(&before, 1));
    assert!(cell.scale(number(1.0), Point::new(7, 7)));
    assert!(!cell.change(Change::Reflect { angle: number(0.0), centre: Point::new(0, 0) }));

    let mut element = Element::Polygon(triangle());
    assert!(element.rotate(number(180.0), Point::new(0, 0)));
    assert!(element.scale(number(2.0), Point::new(0, 0)));
    assert!(element.reflect(number(0.0), Point::new(0, 0)));
    assert!(matches!(&element, Element::Polygon(found) if found.points[1] == Point::new(-8, 0)));
    assert!(!element.rotate(number(0.25), Point::new(0, 0)));
    let mut reference = Reference::new(Instance::Cell("d".to_string()), None);
    assert!(reference.reflect(number(0.0), Point::new(9, 0)));
    assert!(reference.grid.x_reflection);
    assert!(reference.rotate(number(90.0), Point::new(1, 0)));
    assert_eq!(reference.grid.origin, Point::new(1, -1));
    assert!(reference.scale(number(4.0), Point::new(0, 0)));
    assert_eq!(reference.grid.magnification, number(4.0));
    let mut wrapped = Element::Reference(reference);
    assert!(wrapped.change(Change::Rotate { angle: number(90.0), centre: Point::new(0, 0) }));
}
