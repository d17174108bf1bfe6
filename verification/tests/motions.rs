use gdsr::cell::Cell;
use gdsr::element::{Element, Instance, Reference};
use gdsr::flatten::{Placed, Placement};
use gdsr::grid::Grid;
use gdsr::library::Library;
use gdsr::motion::{move_points_through, move_points_through_all, Motion};
use gdsr::number::Real;
use gdsr::path::Path;
use gdsr::point::Point;
use gdsr::polygon::Polygon;
use gdsr::text::{HorizontalPresentation, Text, VerticalPresentation};

fn number(value: f64) -> Real {
    Real::from_bits(value.to_bits())
}

fn grid(angle: f64, magnification: f64, mirror: bool) -> Grid {
    Grid::new(
        Point::new(0, 0),
        1,
        1,
        Point::new(0, 0),
        Point::new(0, 0),
        number(magnification),
        number(angle),
        mirror,
    )
}

fn first(grid: Grid) -> Placement {
    Placement { grid, column: 0, row: 0 }
}

#[test]
fn whole_numbers_are_read_from_doubles() {
    assert_eq!(number(0.0).whole(), Some(0));
    assert_eq!(number(-0.0).whole(), Some(0));
    assert_eq!(number(1.0).whole(), Some(1));
    assert_eq!(number(-1.0).whole(), Some(-1));
    assert_eq!(number(90.0).whole(), Some(90));
    assert_eq!(number(-270.0).whole(), Some(-270));
    assert_eq!(number(2147483647.0).whole(), Some(i32::MAX));
    assert_eq!(number(-2147483647.0).whole(), Some(-i32::MAX));
    assert_eq!(number(2147483648.0).whole(), None);
    assert_eq!(number(-2147483648.0).whole(), None);
    assert_eq!(number(0.5).whole(), None);
    assert_eq!(number(1.5).whole(), None);
    assert_eq!(number(89.99999999999999).whole(), None);
    assert_eq!(number(1e-300).whole(), None);
    assert_eq!(number(1e300).whole(), None);
    assert_eq!(number(f64::NAN).whole(), None);
    assert_eq!(number(f64::INFINITY).whole(), None);
    assert_eq!(number(f64::MIN_POSITIVE / 4.0).whole(), None);
    assert_eq!(number(1073741824.5).whole(), None);
    assert_eq!(number(1073741825.0).whole(), Some(1073741825));
}

#[test]
fn a_motion_mirrors_turns_enlarges_displaces() {
    let motion = Motion { mirror: true, quarters: 1, degrees: 90, factor: 3, offset_x: 100, offset_y: -100 };
    assert_eq!(motion.apply(Point::new(2, 5)), Some(Point::new(115, -94)));
    let turns = |quarters: u8| {
        Motion { mirror: false, quarters, degrees: 90 * quarters as i32, factor: 1, offset_x: 0, offset_y: 0 }
            .apply(Point::new(2, 5))
    };
    assert_eq!(turns(0), Some(Point::new(2, 5)));
    assert_eq!(turns(1), Some(Point::new(-5, 2)));
    assert_eq!(turns(2), Some(Point::new(-2, -5)));
    assert_eq!(turns(3), Some(Point::new(5, -2)));
    let mirror = Motion { mirror: true, quarters: 0, degrees: 0, factor: 1, offset_x: 0, offset_y: 0 };
    assert_eq!(mirror.apply(Point::new(2, 5)), Some(Point::new(2, -5)));
    assert_eq!(mirror.apply(Point::new(2, i32::MIN)), None);
    let far = Motion { mirror: false, quarters: 0, degrees: 0, factor: 2, offset_x: 1, offset_y: 0 };
    assert_eq!(far.apply(Point::new(i32::MAX / 2, 0)), Some(Point::new(i32::MAX, 0)));
    assert_eq!(far.apply(Point::new(i32::MAX / 2 + 1, 0)), None);
    let back = Motion { mirror: false, quarters: 2, degrees: 180, factor: -1, offset_x: 0, offset_y: 0 };
    assert_eq!(back.apply(Point::new(7, -9)), Some(Point::new(7, -9)));
    let huge = Motion {
        mirror: false,
        quarters: 0,
        degrees: 0,
        factor: i32::MIN,
        offset_x: 0x4_0000_0000,
        offset_y: -0x4_0000_0000,
    };
    assert_eq!(huge.apply(Point::new(i32::MIN, i32::MIN)), None);
    assert_eq!(huge.apply(Point::new(8, 0)), None);
    assert_eq!(
        move_points_through(&vec![Point::new(1, 0), Point::new(0, 1)], &motion),
        Some(vec![Point::new(100, -97), Point::new(103, -100)])
    );
    assert_eq!(move_points_through(&vec![Point::new(1, 0), Point::new(i32::MAX, 1)], &motion), None);
}

#[test]
fn the_motion_of_a_copy_is_read_from_its_grid() {
    let array = Grid::new(
        Point::new(10, 0),
        2,
        3,
        Point::new(10, 10),
        Point::new(-20, 3),
        number(2.0),
        number(90.0),
        true,
    );
    let copy = Placement { grid: array, column: 1, row: 2 };
    assert_eq!(
        copy.motion(),
        Some(Motion { mirror: true, quarters: 1, degrees: 90, factor: 2, offset_x: -10, offset_y: 7 })
    );
    let off = Grid { corner_y: Point::new(-20, 1), ..array };
    assert_eq!(Placement { grid: off, column: 1, row: 2 }.motion(), None);
    assert_eq!(Placement { grid: array, column: 2, row: 0 }.motion(), None);
    assert_eq!(Placement { grid: array, column: 0, row: 3 }.motion(), None);
    let quarters = |angle: f64| first(grid(angle, 1.0, false)).motion().map(|motion| motion.quarters);
    assert_eq!(quarters(0.0), Some(0));
    assert_eq!(quarters(-0.0), Some(0));
    assert_eq!(quarters(90.0), Some(1));
    assert_eq!(quarters(180.0), Some(2));
    assert_eq!(quarters(270.0), Some(3));
    assert_eq!(quarters(360.0), Some(0));
    assert_eq!(quarters(450.0), Some(1));
    assert_eq!(quarters(-90.0), Some(3));
    assert_eq!(quarters(-180.0), Some(2));
    assert_eq!(quarters(-450.0), Some(3));
    let degrees = |angle: f64| first(grid(angle, 1.0, false)).motion().map(|motion| motion.degrees);
    assert_eq!(degrees(450.0), Some(450));
    assert_eq!(degrees(-90.0), Some(-90));
    assert_eq!(quarters(45.0), Some(4));
    assert_eq!(quarters(-1.0), Some(4));
    assert_eq!(degrees(45.0), Some(45));
    assert_eq!(quarters(90.5), None);
    assert_eq!(quarters(f64::NAN), None);
    assert_eq!(first(grid(0.0, 1.5, false)).motion(), None);
    assert_eq!(first(grid(0.0, -3.0, false)).motion().map(|motion| motion.factor), Some(-3));
    assert_eq!(first(grid(0.0, 0.0, false)).motion().map(|motion| motion.factor), Some(0));
    let uneven = Grid { columns: 3, corner_x: Point::new(10, 0), ..grid(0.0, 1.0, false) };
    assert_eq!(first(uneven).motion().map(|motion| motion.offset_x), Some(uneven.origin.x as i64));
    assert_eq!(Placement { grid: uneven, column: 1, row: 0 }.motion(), None);
    assert_eq!(Placement { grid: uneven, column: 2, row: 0 }.motion(), None);
    let shared = Grid { columns: 4, corner_x: Point::new(uneven.origin.x + 6, uneven.origin.y), ..uneven };
    assert_eq!(Placement { grid: shared, column: 1, row: 0 }.motion(), None);
    assert_eq!(
        Placement { grid: shared, column: 2, row: 0 }.motion().map(|motion| motion.offset_x),
        Some(uneven.origin.x as i64 + 3)
    );
    assert_eq!(Placement { grid: shared, column: 3, row: 0 }.motion(), None);
    let even = Grid { columns: 5, corner_x: Point::new(-10, 15), ..grid(0.0, 1.0, false) };
    assert_eq!(
        Placement { grid: even, column: 4, row: 0 }.motion(),
        Some(Motion { mirror: false, quarters: 0, degrees: 0, factor: 1, offset_x: -8, offset_y: 12 })
    );
    let wide = Grid {
        origin: Point::new(i32::MIN, i32::MAX),
        columns: u32::MAX,
        rows: 2,
        corner_x: Point::new(i32::MAX, i32::MIN),
        corner_y: Point::new(i32::MIN, i32::MAX - 2),
        ..grid(0.0, 1.0, false)
    };
    assert_eq!(
        Placement { grid: wide, column: u32::MAX - 1, row: 1 }.motion(),
        Some(Motion {
            mirror: false,
            quarters: 0,
            degrees: 0,
            factor: 1,
            offset_x: i32::MAX as i64 - 1,
            offset_y: i32::MIN as i64,
        })
    );
}

#[test]
fn a_turned_and_enlarged_array_puts_its_copies_where_it_should() {
    let array = Grid::new(
        Point::new(10, 0),
        2,
        1,
        Point::new(10, 10),
        Point::new(10, 0),
        number(2.0),
        number(90.0),
        false,
    );
    let marker = Path::new(vec![Point::new(1, 0), Point::new(1, 0)], 0, 0, None, None).unwrap();
    let reference = Reference::new(Instance::Element(Box::new(Element::Path(marker))), Some(array));
    let copies = reference.flatten(&Library::new("none".to_string()), &vec![], None);
    let images: Vec<Point> = copies
        .iter()
        .map(|placed| match placed.resolve() {
            Some(Element::Path(path)) => path.points[0],
            other => panic!("{:?}", other),
        })
        .collect();
    assert_eq!(images, vec![Point::new(10, 2), Point::new(10, 7)]);
}

#[test]
fn copies_of_copies_are_applied_innermost_first() {
    let inner = Grid::new(
        Point::new(5, 0),
        1,
        1,
        Point::new(5, 0),
        Point::new(5, 0),
        number(1.0),
        number(90.0),
        false,
    );
    let outer = Grid::new(
        Point::new(0, 100),
        1,
        2,
        Point::new(0, 100),
        Point::new(0, 300),
        number(3.0),
        number(0.0),
        true,
    );
    let polygon = Polygon::new(vec![Point::new(1, 0), Point::new(2, 0), Point::new(2, 1)], 4, 2).unwrap();
    let leaf = Reference::new(Instance::Element(Box::new(Element::Polygon(polygon))), Some(inner));
    let both = Reference::new(Instance::Element(Box::new(Element::Reference(leaf))), Some(outer));
    let copies = both.flatten(&Library::new("none".to_string()), &vec![], None);
    assert_eq!(copies.len(), 2);
    let second = match copies[1].resolve() {
        Some(Element::Polygon(found)) => found,
        other => panic!("{:?}", other),
    };
    assert_eq!((second.layer, second.data_type), (4, 2));
    assert_eq!(
        second.points,
        vec![Point::new(15, 197), Point::new(15, 194), Point::new(12, 194), Point::new(15, 197)]
    );
    assert_eq!(
        move_points_through_all(&vec![Point::new(1, 0)], &copies[0].placements),
        Some(vec![Point::new(15, 97)])
    );
    assert_eq!(move_points_through_all(&vec![Point::new(1, 0)], &vec![]), Some(vec![Point::new(1, 0)]));
}

#[test]
fn what_has_no_whole_image_is_not_resolved() {
    let polygon = Polygon::new(vec![Point::new(1, 0), Point::new(2, 0), Point::new(2, 1)], 0, 0).unwrap();
    let plain = Placed::new(Element::Polygon(polygon.copy()));
    assert!(matches!(plain.resolve(), Some(Element::Polygon(found)) if found.points == polygon.points));
    let slanted = plain.through(first(grid(30.0, 1.0, false)));
    assert!(slanted.resolve().is_none());
    assert!(slanted.resolve_shape().is_none());
    let shrunk = plain.through(first(grid(0.0, 0.5, false)));
    assert!(shrunk.resolve().is_none());
    let beyond = plain.through(first(grid(0.0, 2000000000.0, false)));
    assert!(beyond.resolve().is_none());
    let text = label(0.5, 1.0);
    assert!(Placed::new(Element::Text(text.copy())).resolve().is_some());
    assert!(Placed::new(Element::Text(text.copy())).resolve_shape().is_none());
    assert!(Placed::new(Element::Text(text.copy())).through(first(grid(0.0, 1.0, false))).resolve().is_some());
    assert!(Placed::new(Element::Text(text)).through(first(grid(90.0, 1.0, false))).resolve().is_none());
    let big = Placed::new(Element::Text(label(0.0, 100000.0))).through(first(grid(0.0, 100000.0, false)));
    assert!(big.resolve().is_none());
    let far = Placed::new(Element::Text(label(2147483000.0, 1.0))).through(first(grid(900.0, 1.0, false)));
    assert!(far.resolve().is_none());
}

fn label(angle: f64, magnification: f64) -> Text {
    Text::new(
        "t".to_string(),
        Point::new(3, 4),
        0,
        number(magnification),
        number(angle),
        false,
        VerticalPresentation::Top,
        HorizontalPresentation::Left,
    )
    .unwrap()
}

#[test]
fn whole_numbers_become_doubles() {
    for value in [0, 1, -1, 2, 3, 90, -270, 360, 1000000007, i32::MAX, -i32::MAX, 1 << 30, -(1 << 22)] {
        let made = Real::from_whole(value);
        assert_eq!(made.to_bits(), (value as f64).to_bits(), "{}", value);
        assert_eq!(made.whole(), Some(value));
    }
}

#[test]
fn a_text_moves_and_turns_with_its_copies() {
    let copy = Placement {
        grid: Grid::new(
            Point::new(100, 0),
            1,
            2,
            Point::new(100, 0),
            Point::new(100, 40),
            number(3.0),
            number(450.0),
            true,
        ),
        column: 0,
        row: 1,
    };
    let placed = Placed::new(Element::Text(label(30.0, 2.0))).through(copy);
    match placed.resolve() {
        Some(Element::Text(found)) => {
            assert_eq!(found.origin, Point::new(112, 29));
            assert_eq!(found.angle, number(420.0));
            assert_eq!(found.magnification, number(6.0));
            assert!(!found.x_reflection);
            assert_eq!(found.text, "t");
        }
        other => panic!("{:?}", other),
    }
    let unmirrored = Placement { grid: Grid { x_reflection: false, ..copy.grid }, ..copy };
    match Placed::new(Element::Text(label(400.0, -1.0))).through(unmirrored).resolve() {
        Some(Element::Text(found)) => {
            assert_eq!(found.origin, Point::new(88, 29));
            assert_eq!(found.angle, number(850.0));
            assert_eq!(found.magnification, number(-3.0));
        }
        other => panic!("{:?}", other),
    }
    let twice = Placed::new(Element::Text(label(400.0, 1.0)))
        .through(first(grid(0.0, 1.0, true)))
        .through(first(grid(0.0, 1.0, true)));
    match twice.resolve() {
        Some(Element::Text(found)) => {
            assert_eq!(found.origin, Point::new(3, 4));
            assert_eq!(found.angle, number(40.0));
        }
        other => panic!("{:?}", other),
    }
    let zero = Placed::new(Element::Text(label(360.0, 1.0))).through(first(grid(0.0, 1.0, true)));
    match zero.resolve() {
        Some(Element::Text(found)) => assert_eq!(found.angle.to_bits(), 0),
        other => panic!("{:?}", other),
    }
}

#[test]
fn a_reference_left_at_the_depth_takes_the_copies_on_its_grid() {
    let inner = Grid::new(
        Point::new(10, 0),
        2,
        3,
        Point::new(30, 0),
        Point::new(10, 60),
        number(2.0),
        number(270.0),
        false,
    );
    let reference = Reference::new(Instance::Cell("leaf".to_string()), Some(inner));
    let copy = Placement {
        grid: Grid::new(
            Point::new(0, 500),
            1,
            1,
            Point::new(0, 500),
            Point::new(0, 500),
            number(3.0),
            number(180.0),
            true,
        ),
        column: 0,
        row: 0,
    };
    match Placed::new(Element::Reference(reference)).through(copy).resolve() {
        Some(Element::Reference(found)) => {
            assert!(matches!(&found.instance, Instance::Cell(name) if name == "leaf"));
            assert_eq!(
                found.grid,
                Grid::new(
                    Point::new(-30, 500),
                    2,
                    3,
                    Point::new(-90, 500),
                    Point::new(-30, 320),
                    number(6.0),
                    number(90.0),
                    true
                )
            );
        }
        other => panic!("{:?}", other),
    }
}

#[test]
fn a_cell_is_flattened_in_place() {
    let mut leaf = Cell::new("leaf".to_string());
    leaf.add(vec![
        Element::Polygon(Polygon::new(vec![Point::new(0, 0), Point::new(2, 0), Point::new(0, 1)], 1, 0).unwrap()),
        Element::Text(label(0.0, 1.0)),
    ]);
    let mut mid = Cell::new("mid".to_string());
    mid.add(vec![Element::Reference(Reference::new(
        Instance::Cell("leaf".to_string()),
        Grid::with_spacing(
            Point::new(0, 0),
            2,
            1,
            Point::new(10, 0),
            Point::new(0, 0),
            number(1.0),
            number(0.0),
            false,
        ),
    ))]);
    let mut top = Cell::new("top".to_string());
    top.add(vec![
        Element::Path(Path::new(vec![Point::new(0, 0), Point::new(1, 1)], 0, 0, None, None).unwrap()),
        Element::Reference(Reference::new(
            Instance::Cell("mid".to_string()),
            Grid::with_spacing(
                Point::new(100, 100),
                1,
                2,
                Point::new(0, 0),
                Point::new(0, 50),
                number(2.0),
                number(90.0),
                false,
            ),
        )),
    ]);
    let mut library = Library::new("lib".to_string());
    library.add(vec![top.copy(), mid, leaf], false).unwrap();

    let mut same = top.copy();
    assert!(same.flatten(&library, &vec![], Some(0)));
    assert!(same.is_equal(&top, 1));

    let mut one = top.copy();
    assert!(one.flatten(&library, &vec![], Some(1)));
    assert_eq!((one.paths.len(), one.polygons.len(), one.texts.len(), one.references.len()), (1, 0, 0, 2));
    assert_eq!(one.references[0].grid.origin, Point::new(100, 100));
    assert_eq!(one.references[1].grid.origin, Point::new(50, 100));
    assert_eq!(one.references[1].grid.corner_x, Point::new(50, 140));
    assert_eq!(one.references[1].grid.angle, number(90.0));
    assert_eq!(one.references[1].grid.magnification, number(2.0));

    let mut all = top.copy();
    assert!(all.flatten(&library, &vec![], None));
    assert_eq!((all.paths.len(), all.polygons.len(), all.texts.len(), all.references.len()), (1, 4, 4, 0));
    let corners: Vec<Point> = all.polygons.iter().map(|polygon| polygon.points[1]).collect();
    assert_eq!(
        corners,
        vec![Point::new(100, 104), Point::new(50, 104), Point::new(100, 124), Point::new(50, 124)]
    );
    assert_eq!(all.texts[3].origin, Point::new(42, 126));
    assert_eq!(all.texts[3].angle, number(90.0));
    assert_eq!(all.texts[3].magnification, number(2.0));

    let mut picked = top.copy();
    assert!(picked.flatten(&library, &vec![(1, 0)], None));
    assert_eq!((picked.polygons.len(), picked.texts.len()), (4, 0));
    let mut other = top.copy();
    assert!(other.flatten(&library, &vec![(7, 0)], None));
    assert_eq!((other.paths.len(), other.polygons.len(), other.texts.len()), (1, 0, 0));

    let mut slanted = Cell::new("slanted".to_string());
    slanted.add(vec![Element::Reference(Reference::new(
        Instance::Cell("leaf".to_string()),
        Some(Grid { angle: number(12.5), ..Grid::single() }),
    ))]);
    let before = slanted.copy();
    assert!(!slanted.flatten(&library, &vec![], None));
    assert!(slanted.is_equal(&before, 1));
}
#[test]
fn a_grid_is_made_from_spacings() {
    let made = Grid::with_spacing(
        Point::new(10, 0),
        2,
        1,
        Point::new(5, 0),
        Point::new(0, 0),
        number(2.0),
        number(90.0),
        false,
    )
    .unwrap();
    assert_eq!(
        made,
        Grid::new(
            Point::new(10, 0),
            2,
            1,
            Point::new(10, 10),
            Point::new(10, 0),
            number(2.0),
            number(90.0),
            false
        )
    );
    assert_eq!(made.spacing(), Some((Point::new(5, 0), Point::new(0, 0))));
    let marker = Path::new(vec![Point::new(1, 0), Point::new(1, 0)], 0, 0, None, None).unwrap();
    let reference = Reference::new(Instance::Element(Box::new(Element::Path(marker))), Some(made));
    let images: Vec<Point> = reference
        .expand()
        .unwrap()
        .iter()
        .map(|element| match element {
            Element::Path(path) => path.points[0],
            other => panic!("{:?}", other),
        })
        .collect();
    assert_eq!(images, vec![Point::new(10, 2), Point::new(10, 7)]);
}

#[test]
fn spacings_are_turned_with_the_grid() {
    let corners = |angle: f64| {
        Grid::with_spacing(
            Point::new(100, 200),
            3,
            2,
            Point::new(10, 1),
            Point::new(-2, 20),
            number(1.0),
            number(angle),
            true,
        )
        .map(|grid| (grid.corner_x, grid.corner_y))
    };
    assert_eq!(corners(0.0), Some((Point::new(130, 203), Point::new(96, 240))));
    assert_eq!(corners(90.0), Some((Point::new(97, 230), Point::new(60, 196))));
    assert_eq!(corners(180.0), Some((Point::new(70, 197), Point::new(104, 160))));
    assert_eq!(corners(270.0), Some((Point::new(103, 170), Point::new(140, 204))));
    assert_eq!(corners(-90.0), corners(270.0));
    assert_eq!(corners(720.0), corners(0.0));
    assert_eq!(corners(45.0), None);
    assert_eq!(corners(0.25), None);
    for angle in [0.0, 90.0, 180.0, 270.0, -180.0] {
        let grid = Grid::with_spacing(
            Point::new(100, 200),
            3,
            2,
            Point::new(10, 1),
            Point::new(-2, 20),
            number(1.0),
            number(angle),
            true,
        )
        .unwrap();
        assert_eq!(grid.spacing(), Some((Point::new(10, 1), Point::new(-2, 20))));
        let copy = Placement { grid, column: 2, row: 1 }.motion().unwrap();
        let plain = Placement {
            grid: Grid { angle: number(angle), ..Grid::single() },
            column: 0,
            row: 0,
        }
        .motion()
        .unwrap();
        let turned = plain.apply(Point::new(2 * 10 - 2, 2 * 1 + 20)).unwrap();
        assert_eq!((copy.offset_x, copy.offset_y), (100 + turned.x as i64, 200 + turned.y as i64));
    }
}

#[test]
fn spacings_that_do_not_fit_are_refused() {
    let far = Grid::with_spacing(
        Point::new(i32::MAX, 0),
        1,
        1,
        Point::new(1, 0),
        Point::new(0, 0),
        number(1.0),
        number(0.0),
        false,
    );
    assert_eq!(far, None);
    let wide = Grid::with_spacing(
        Point::new(0, 0),
        u32::MAX,
        u32::MAX,
        Point::new(i32::MIN, i32::MAX),
        Point::new(1, 1),
        number(1.0),
        number(90.0),
        false,
    );
    assert_eq!(wide, None);
    let edge = Grid::with_spacing(
        Point::new(i32::MIN, i32::MIN),
        2,
        u32::MAX,
        Point::new(i32::MAX, 0),
        Point::new(1, 1),
        number(1.0),
        number(0.0),
        false,
    )
    .unwrap();
    assert_eq!(edge.corner_x, Point::new(i32::MAX - 1, i32::MIN));
    assert_eq!(edge.corner_y, Point::new(i32::MAX, i32::MAX));
    assert_eq!(edge.spacing(), Some((Point::new(i32::MAX, 0), Point::new(1, 1))));
    let none = Grid { columns: 0, ..Grid::single() };
    assert_eq!(none.spacing(), Some((Point::new(0, 0), Point::new(0, 0))));
    let uneven = Grid { columns: 2, corner_x: Point::new(3, 0), ..Grid::single() };
    assert_eq!(uneven.spacing(), None);
    let slanted = Grid { angle: number(1.0), columns: 2, corner_x: Point::new(2, 0), ..Grid::single() };
    assert_eq!(slanted.spacing(), None);
    let long = Grid {
        origin: Point::new(i32::MIN, 0),
        corner_x: Point::new(i32::MAX, 0),
        ..Grid::single()
    };
    assert_eq!(long.spacing(), None);
    assert_eq!(Grid::single().spacing(), Some((Point::new(0, 0), Point::new(0, 0))));
}
