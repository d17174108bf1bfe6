use gdsr::cell::Cell;
use gdsr::element::{Element, Instance, Reference};
use gdsr::error::{GeometryError, LibraryError};
use gdsr::filter::{filter_accepts, filter_accepts_layer};
use gdsr::grid::Grid;
use gdsr::library::Library;
use gdsr::number::Real;
use gdsr::path::{Path, PathType};
use gdsr::point::{
    copy_points, epsilon_is_close, get_points_from_i32_vec, move_points, offset,
    points_are_close, Point,
};
use gdsr::polygon::{
    close_points, get_correct_polygon_points_format, has_three_distinct, Polygon,
};
use gdsr::text::{
    get_presentation_value, get_presentations_from_value, HorizontalPresentation, Text,
    VerticalPresentation,
};
use gdsr::utils::geometry::bounding_box;
use gdsr::validation::{
    check_data_type_valid, check_layer_valid, check_points_vec_has_at_least_two_points,
    check_points_vec_not_empty,
};

fn number(value: f64) -> Real {
    Real::from_bits(value.to_bits())
}

fn triangle(layer: i32) -> Polygon {
    Polygon::new(vec![Point::new(0, 0), Point::new(4, 0), Point::new(0, 3)], layer, 0).unwrap()
}

fn line(layer: i32) -> Path {
    Path::new(vec![Point::new(0, 0), Point::new(4, 0)], layer, 0, None, None).unwrap()
}

fn label(text: &str, layer: i32) -> Text {
    Text::new(
        text.to_string(),
        Point::new(1, 1),
        layer,
        number(1.0),
        number(0.0),
        false,
        VerticalPresentation::Middle,
        HorizontalPresentation::Centre,
    )
    .unwrap()
}

#[test]
fn points_are_made_and_copied() {
    let point = Point::new(3, -4);
    assert_eq!((point.x, point.y), (3, -4));
    assert_eq!(point.copy(), point);
    assert_eq!(copy_points(&vec![point, Point::new(1, 2)]), vec![point, Point::new(1, 2)]);
}

#[test]
fn the_cross_product_is_exact() {
    assert_eq!(Point::new(1, 0).cross(Point::new(0, 1)), 1);
    assert_eq!(Point::new(0, 1).cross(Point::new(1, 0)), -1);
    assert_eq!(Point::new(3, 4).cross(Point::new(6, 8)), 0);
    assert_eq!(
        Point::new(i32::MIN, i32::MIN).cross(Point::new(i32::MAX, i32::MIN)),
        (i32::MIN as i64) * (i32::MIN as i64) - (i32::MIN as i64) * (i32::MAX as i64)
    );
    assert_eq!(
        Point::new(i32::MIN, i32::MAX).cross(Point::new(i32::MAX, i32::MIN)),
        (i32::MIN as i64) * (i32::MIN as i64) - (i32::MAX as i64) * (i32::MAX as i64)
    );
}

#[test]
fn a_quarter_turn_swaps_the_coordinates() {
    assert_eq!(Point::new(3, 4).ortho(), Some(Point::new(-4, 3)));
    assert_eq!(Point::new(3, i32::MIN).ortho(), None);
}

#[test]
fn points_are_displaced_within_range() {
    assert_eq!(Point::new(1, 2).move_by(Point::new(-3, 5)), Some(Point::new(-2, 7)));
    assert_eq!(Point::new(i32::MAX, 0).move_by(Point::new(1, 0)), None);
    assert_eq!(Point::new(0, i32::MIN).move_by(Point::new(0, -1)), None);
    assert_eq!(
        Point::new(i32::MAX, i32::MIN).move_by(Point::new(0, 0)),
        Some(Point::new(i32::MAX, i32::MIN))
    );
    assert_eq!(offset(Point::new(1, 1), Point::new(4, -1)), Some(Point::new(3, -2)));
    assert_eq!(offset(Point::new(-1, 0), Point::new(i32::MAX, 0)), None);
    assert_eq!(
        move_points(&vec![Point::new(0, 0), Point::new(1, 1)], Point::new(2, 3)),
        Some(vec![Point::new(2, 3), Point::new(3, 4)])
    );
    assert_eq!(move_points(&vec![Point::new(0, 0), Point::new(i32::MAX, 1)], Point::new(1, 0)), None);
}

#[test]
fn closeness_is_strict() {
    assert!(epsilon_is_close(5, 5, 1));
    assert!(!epsilon_is_close(5, 6, 1));
    assert!(epsilon_is_close(5, 6, 2));
    assert!(!epsilon_is_close(5, 7, 2));
    assert!(!epsilon_is_close(5, 5, 0));
    assert!(!epsilon_is_close(i32::MIN, i32::MAX, u32::MAX));
    assert!(epsilon_is_close(i32::MIN, i32::MAX - 1, u32::MAX));
    assert!(Point::new(0, 0).epsilon_is_close(Point::new(1, -1), 2));
    assert!(!Point::new(0, 0).epsilon_is_close(Point::new(1, -2), 2));
    let first = vec![Point::new(0, 0), Point::new(5, 5)];
    assert!(points_are_close(&first, &vec![Point::new(0, 1), Point::new(4, 5)], 2));
    assert!(!points_are_close(&first, &vec![Point::new(0, 0)], 2));
    assert!(!points_are_close(&first, &vec![Point::new(0, 0), Point::new(5, 7)], 2));
}

#[test]
fn coordinates_pair_up_into_points() {
    assert_eq!(
        get_points_from_i32_vec(vec![1, 2, 3, 4]),
        vec![Point::new(1, 2), Point::new(3, 4)]
    );
    assert_eq!(get_points_from_i32_vec(vec![1, 2, 3]), vec![Point::new(1, 2)]);
    assert_eq!(get_points_from_i32_vec(vec![]), Vec::<Point>::new());
}

#[test]
fn layers_are_checked() {
    assert_eq!(check_layer_valid(0), Ok(()));
    assert_eq!(check_layer_valid(255), Ok(()));
    assert_eq!(check_layer_valid(256), Err(GeometryError::LayerOutOfRange));
    assert_eq!(check_layer_valid(-1), Err(GeometryError::LayerOutOfRange));
    assert_eq!(check_data_type_valid(-70000), Ok(()));
    assert_eq!(check_points_vec_not_empty(&vec![]), Err(GeometryError::EmptyPoints));
    assert_eq!(check_points_vec_not_empty(&vec![Point::new(0, 0)]), Ok(()));
    assert_eq!(
        check_points_vec_has_at_least_two_points(&vec![]),
        Err(GeometryError::EmptyPoints)
    );
    assert_eq!(
        check_points_vec_has_at_least_two_points(&vec![Point::new(0, 0)]),
        Err(GeometryError::TooFewPoints)
    );
    assert_eq!(
        check_points_vec_has_at_least_two_points(&vec![Point::new(0, 0), Point::new(0, 0)]),
        Ok(())
    );
}

#[test]
fn polygons_are_closed_when_made() {
    let polygon = triangle(1);
    assert_eq!(
        polygon.points,
        vec![Point::new(0, 0), Point::new(4, 0), Point::new(0, 3), Point::new(0, 0)]
    );
    let closed = Polygon::new(polygon.points.clone(), 1, 0).unwrap();
    assert_eq!(closed.points.len(), 4);
    assert_eq!(close_points(&vec![]), Vec::<Point>::new());
    assert_eq!(close_points(&vec![Point::new(1, 1)]), vec![Point::new(1, 1)]);
    assert_eq!(
        get_correct_polygon_points_format(vec![Point::new(1, 1), Point::new(2, 2)]),
        vec![Point::new(1, 1), Point::new(2, 2), Point::new(1, 1)]
    );
}

#[test]
fn polygons_that_are_none_are_refused() {
    assert_eq!(Polygon::new(vec![], 0, 0).err(), Some(GeometryError::EmptyPoints));
    assert_eq!(
        Polygon::new(vec![Point::new(0, 0), Point::new(1, 1)], 0, 0).err(),
        Some(GeometryError::TooFewPoints)
    );
    assert_eq!(
        Polygon::new(vec![Point::new(0, 0), Point::new(1, 1), Point::new(0, 0)], 0, 0).err(),
        Some(GeometryError::TooFewPoints)
    );
    assert_eq!(
        Polygon::new(vec![Point::new(0, 0), Point::new(1, 1), Point::new(2, 0)], 256, 0).err(),
        Some(GeometryError::LayerOutOfRange)
    );
    assert_eq!(Polygon::new(vec![], 300, 0).err(), Some(GeometryError::EmptyPoints));
    assert_eq!(
        Polygon::new(vec![Point::new(0, 0), Point::new(0, 0), Point::new(1, 1), Point::new(1, 1)], 0, 0)
            .err(),
        Some(GeometryError::TooFewPoints)
    );
    assert_eq!(
        Polygon::new(vec![Point::new(5, 5), Point::new(5, 5), Point::new(5, 5)], 0, 0).err(),
        Some(GeometryError::TooFewPoints)
    );
    assert!(Polygon::new(
        vec![Point::new(0, 0), Point::new(0, 0), Point::new(1, 1), Point::new(0, 0), Point::new(1, 0)],
        0,
        0
    )
    .is_ok());
    assert!(has_three_distinct(&vec![Point::new(0, 0), Point::new(1, 0), Point::new(0, 1)]));
    assert!(!has_three_distinct(&vec![Point::new(0, 0), Point::new(1, 0), Point::new(0, 0)]));
    assert!(!has_three_distinct(&vec![]));
}

#[test]
fn paths_that_are_none_are_refused() {
    assert_eq!(Path::new(vec![], 0, 0, None, None).err(), Some(GeometryError::EmptyPoints));
    assert_eq!(
        Path::new(vec![Point::new(0, 0)], 0, 0, None, None).err(),
        Some(GeometryError::TooFewPoints)
    );
    assert_eq!(
        Path::new(vec![Point::new(0, 0), Point::new(1, 0)], -1, 0, None, None).err(),
        Some(GeometryError::LayerOutOfRange)
    );
    let path = Path::new(
        vec![Point::new(0, 0), Point::new(1, 0)],
        1,
        2,
        Some(PathType::Square),
        Some(10),
    )
    .unwrap();
    assert_eq!((path.layer, path.data_type, path.width), (1, 2, Some(10)));
    assert_eq!(path.path_type, Some(PathType::Square));
}

#[test]
fn texts_on_bad_layers_are_refused() {
    let made = Text::new(
        "x".to_string(),
        Point::new(0, 0),
        256,
        number(1.0),
        number(0.0),
        false,
        VerticalPresentation::Top,
        HorizontalPresentation::Left,
    );
    assert_eq!(made.err(), Some(GeometryError::LayerOutOfRange));
    let text = label("ok", 255);
    assert_eq!((text.text.as_str(), text.layer), ("ok", 255));
}

#[test]
fn styles_and_anchors_have_their_numbers() {
    assert_eq!(PathType::new(0), Some(PathType::Square));
    assert_eq!(PathType::new(1), Some(PathType::Round));
    assert_eq!(PathType::new(2), Some(PathType::Overlap));
    assert_eq!(PathType::new(3), None);
    assert_eq!(PathType::new(-1), None);
    assert_eq!(PathType::Overlap.value(), 2);
    assert_eq!(PathType::values(), vec![PathType::Square, PathType::Round, PathType::Overlap]);
    assert_eq!(VerticalPresentation::new(2), Some(VerticalPresentation::Bottom));
    assert_eq!(VerticalPresentation::new(3), None);
    assert_eq!(VerticalPresentation::Middle.value(), 1);
    assert_eq!(HorizontalPresentation::new(0), Some(HorizontalPresentation::Left));
    assert_eq!(HorizontalPresentation::new(-1), None);
    assert_eq!(HorizontalPresentation::Right.value(), 2);
}

#[test]
fn presentation_flags_pair_the_anchors() {
    let verticals =
        [VerticalPresentation::Top, VerticalPresentation::Middle, VerticalPresentation::Bottom];
    let horizontals = [
        HorizontalPresentation::Left,
        HorizontalPresentation::Centre,
        HorizontalPresentation::Right,
    ];
    let expected = [[0, 1, 2], [4, 5, 6], [8, 9, 10]];
    for (row, vertical) in verticals.iter().enumerate() {
        for (column, horizontal) in horizontals.iter().enumerate() {
            let flags = get_presentation_value(*vertical, *horizontal);
            assert_eq!(flags, expected[row][column]);
            assert_eq!(get_presentations_from_value(flags), Some((*vertical, *horizontal)));
        }
    }
    for flags in [3u16, 7, 11, 12, 16, 0x8000, 0xFFFF] {
        assert_eq!(get_presentations_from_value(flags), None);
    }
}

#[test]
fn filters_let_through_what_they_name() {
    let filter = vec![(1, 0), (2, 5)];
    assert!(filter_accepts(&filter, 1, 0));
    assert!(filter_accepts(&filter, 2, 5));
    assert!(!filter_accepts(&filter, 1, 5));
    assert!(filter_accepts(&vec![], 9, 9));
    assert!(filter_accepts_layer(&filter, 2));
    assert!(!filter_accepts_layer(&filter, 0));
    assert!(filter_accepts_layer(&vec![], 0));
    assert!(triangle(1).is_on(&filter));
    assert!(!triangle(2).is_on(&filter));
    assert!(line(1).is_on(&filter));
    assert!(!line(3).is_on(&filter));
    assert!(label("a", 2).is_on(&filter));
    assert!(!label("a", 5).is_on(&filter));
    let reference = Reference::new(Instance::Cell("c".to_string()), None);
    assert!(!reference.is_on(&filter));
    assert!(reference.is_on(&vec![]));
    assert!(Element::Polygon(triangle(1)).is_on(&filter));
    assert!(!Element::Reference(reference).is_on(&filter));
}

#[test]
fn bounding_boxes_are_tight() {
    assert_eq!(bounding_box(&vec![]), None);
    assert_eq!(
        bounding_box(&vec![Point::new(3, -1)]),
        Some((Point::new(3, -1), Point::new(3, -1)))
    );
    assert_eq!(
        bounding_box(&vec![Point::new(3, -1), Point::new(-2, 8), Point::new(0, 0)]),
        Some((Point::new(-2, -1), Point::new(3, 8)))
    );
    assert_eq!(triangle(0).bounding_box(), Some((Point::new(0, 0), Point::new(4, 3))));
}

#[test]
fn shapes_are_displaced_or_left_alone() {
    let mut polygon = triangle(0);
    assert!(polygon.move_by(Point::new(10, -10)));
    assert_eq!(polygon.points[1], Point::new(14, -10));
    assert!(!polygon.move_by(Point::new(i32::MAX, 0)));
    assert_eq!(polygon.points[1], Point::new(14, -10));
    assert!(polygon.move_to(Point::new(0, 0)));
    assert_eq!(polygon.points, triangle(0).points);
    let mut empty = Polygon { points: vec![], layer: 0, data_type: 0 };
    assert!(!empty.move_to(Point::new(1, 1)));
    assert!(empty.move_by(Point::new(1, 1)));

    let mut path = line(0);
    assert!(path.move_to(Point::new(-1, -1)));
    assert_eq!(path.points, vec![Point::new(-1, -1), Point::new(3, -1)]);
    assert!(!path.move_by(Point::new(0, i32::MIN)));

    let mut text = label("t", 0);
    assert!(text.move_by(Point::new(1, 1)));
    assert_eq!(text.origin, Point::new(2, 2));
    text.move_to(Point::new(-9, 9));
    assert_eq!(text.origin, Point::new(-9, 9));
    assert!(!text.move_by(Point::new(i32::MIN, 0)));
    assert_eq!(text.origin, Point::new(-9, 9));
}

#[test]
fn grids_move_with_all_their_corners() {
    let mut grid = Grid::new(
        Point::new(0, 0),
        2,
        3,
        Point::new(20, 0),
        Point::new(0, 30),
        number(1.0),
        number(0.0),
        false,
    );
    assert_eq!(grid.copy(), grid);
    assert!(grid.move_by(Point::new(5, 5)));
    assert_eq!((grid.origin, grid.corner_x, grid.corner_y), (
        Point::new(5, 5),
        Point::new(25, 5),
        Point::new(5, 35)
    ));
    assert!(grid.move_to(Point::new(-5, 0)));
    assert_eq!((grid.origin, grid.corner_x, grid.corner_y), (
        Point::new(-5, 0),
        Point::new(15, 0),
        Point::new(-5, 30)
    ));
    assert!(!grid.move_by(Point::new(i32::MAX - 14, 0)));
    assert_eq!(grid.origin, Point::new(-5, 0));
    grid.set_origin(Point::new(1, 1));
    grid.set_corner_x(Point::new(2, 2));
    grid.set_corner_y(Point::new(3, 3));
    assert_eq!((grid.origin, grid.corner_x, grid.corner_y), (
        Point::new(1, 1),
        Point::new(2, 2),
        Point::new(3, 3)
    ));
    let single = Grid::single();
    assert_eq!((single.columns, single.rows), (1, 1));
    assert_eq!(single.magnification, number(1.0));
    assert_eq!(single.angle, number(0.0));
    assert!(single.is_equal(&Grid::single(), 1));
    let turned = Grid { angle: number(-0.0), ..Grid::single() };
    assert!(single.is_equal(&turned, 1));
    let other = Grid { rows: 2, ..Grid::single() };
    assert!(!single.is_equal(&other, 1));
}

#[test]
fn elements_are_compared_by_what_they_are() {
    let polygon = Element::Polygon(triangle(1));
    let path = Element::Path(line(1));
    assert!(polygon.is_equal(&polygon.copy(), 1));
    assert!(!polygon.is_equal(&path, 1));
    assert!(!polygon.is_equal(&Element::Polygon(triangle(2)), 1));
    let mut moved = triangle(1);
    moved.move_by(Point::new(1, 0));
    assert!(!polygon.is_equal(&Element::Polygon(moved.copy()), 1));
    assert!(polygon.is_equal(&Element::Polygon(moved), 2));
    let inner = Reference::new(Instance::Element(Box::new(polygon.copy())), None);
    let outer = Reference::new(
        Instance::Element(Box::new(Element::Reference(inner.copy()))),
        Some(Grid { columns: 2, ..Grid::single() }),
    );
    assert!(outer.is_equal(&outer.copy(), 1));
    assert!(!outer.is_equal(&inner, 1));
    let named = Reference::new(Instance::Cell("a".to_string()), None);
    assert!(named.is_equal(&Reference::new(Instance::Cell("a".to_string()), None), 1));
    assert!(!named.is_equal(&Reference::new(Instance::Cell("b".to_string()), None), 1));
    assert!(!named.is_equal(&inner, 1));
    assert!(label("a", 1).is_equal(&label("a", 1), 1));
    assert!(!label("a", 1).is_equal(&label("b", 1), 1));
    let mut element = Element::Text(label("a", 1));
    assert!(element.move_by(Point::new(1, 1)));
    assert!(element.is_equal(&Element::Text(label("a", 1)), 2));
    assert!(!element.is_equal(&Element::Text(label("a", 1)), 1));
}

#[test]
fn cells_gather_and_lose_elements() {
    let mut cell = Cell::new("c".to_string());
    assert!(cell.is_empty());
    cell.add(vec![
        Element::Polygon(triangle(1)),
        Element::Path(line(1)),
        Element::Polygon(triangle(2)),
        Element::Text(label("t", 3)),
        Element::Reference(Reference::new(Instance::Cell("d".to_string()), None)),
        Element::Polygon(triangle(1)),
    ]);
    assert!(!cell.is_empty());
    assert_eq!(
        (cell.polygons.len(), cell.paths.len(), cell.texts.len(), cell.references.len()),
        (3, 1, 1, 1)
    );
    assert_eq!(cell.polygons[1].layer, 2);
    assert!(cell.contains(&Element::Polygon(triangle(2)), 1));
    assert!(!cell.contains(&Element::Polygon(triangle(3)), 1));
    assert!(cell.contains(&Element::Text(label("t", 3)), 1));
    assert!(!cell.contains(&Element::Path(line(2)), 1));
    let copy = cell.copy();
    assert!(cell.is_equal(&copy, 1));
    cell.remove(&vec![Element::Polygon(triangle(1)), Element::Path(line(9))], 1);
    assert_eq!(cell.polygons.len(), 1);
    assert_eq!(cell.polygons[0].layer, 2);
    assert_eq!(cell.paths.len(), 1);
    assert!(!cell.is_equal(&copy, 1));
    cell.remove_element(&Element::Reference(Reference::new(Instance::Cell("d".to_string()), None)), 1);
    assert!(cell.references.is_empty());
    let mut other = copy.copy();
    other.name = "e".to_string();
    assert!(!other.is_equal(&copy, 1));
}

#[test]
fn cells_move_as_a_whole_or_not_at_all() {
    let mut cell = Cell::new("c".to_string());
    cell.add(vec![
        Element::Polygon(triangle(1)),
        Element::Path(line(1)),
        Element::Text(label("t", 3)),
        Element::Reference(Reference::new(Instance::Cell("d".to_string()), None)),
    ]);
    assert!(cell.move_by(Point::new(100, 200)));
    assert_eq!(cell.polygons[0].points[0], Point::new(100, 200));
    assert_eq!(cell.paths[0].points[1], Point::new(104, 200));
    assert_eq!(cell.texts[0].origin, Point::new(101, 201));
    assert_eq!(cell.references[0].grid.origin, Point::new(100, 200));
    assert_eq!(cell.references[0].grid.corner_y, Point::new(100, 200));
    let before = cell.copy();
    cell.texts[0].origin = Point::new(i32::MAX, 0);
    let edge = cell.copy();
    assert!(!cell.move_by(Point::new(1, 0)));
    assert!(cell.is_equal(&edge, 1));
    assert!(!cell.is_equal(&before, 1));
}

#[test]
fn a_second_cell_of_a_name_is_refused_or_replaces() {
    let mut library = Library::new("lib".to_string());
    let mut first = Cell::new("a".to_string());
    first.add_element(Element::Polygon(triangle(1)));
    assert_eq!(library.add(vec![first.copy(), Cell::new("b".to_string())], false), Ok(()));
    let second = Cell::new("a".to_string());
    assert_eq!(
        library.add(vec![Cell::new("c".to_string()), second.copy(), Cell::new("d".to_string())], false),
        Err(LibraryError::DuplicateName { position: 1 })
    );
    let names: Vec<&str> = library.cells.iter().map(|cell| cell.name.as_str()).collect();
    assert_eq!(names, vec!["a", "b", "c"]);
    assert_eq!(library.cells[0].polygons.len(), 1);
    assert_eq!(library.add(vec![second, Cell::new("d".to_string())], true), Ok(()));
    let names: Vec<&str> = library.cells.iter().map(|cell| cell.name.as_str()).collect();
    assert_eq!(names, vec!["a", "b", "c", "d"]);
    assert!(library.cells[0].is_empty());
    assert_eq!(
        library.add(vec![Cell::new("x".to_string()), Cell::new("x".to_string())], false),
        Err(LibraryError::DuplicateName { position: 1 })
    );
}

#[test]
fn libraries_find_and_lose_cells() {
    let mut library = Library::new("lib".to_string());
    assert_eq!(library.name, "lib");
    let mut a = Cell::new("a".to_string());
    a.add_element(Element::Path(line(1)));
    library.add(vec![a.copy(), Cell::new("b".to_string()), Cell::new("c".to_string())], false).unwrap();
    assert_eq!(library.index_of(&"b".to_string()), Some(1));
    assert_eq!(library.index_of(&"z".to_string()), None);
    assert!(library.get(&"a".to_string()).unwrap().is_equal(&a, 1));
    assert!(library.get(&"".to_string()).is_none());
    assert!(library.contains(&a, 1));
    assert!(!library.contains(&Cell::new("a".to_string()), 1));
    let copy = library.copy();
    library.remove(&vec![Cell::new("b".to_string()), Cell::new("nope".to_string())]);
    let names: Vec<&str> = library.cells.iter().map(|cell| cell.name.as_str()).collect();
    assert_eq!(names, vec!["a", "c"]);
    assert_eq!(copy.cells.len(), 3);
    library.insert(Cell::new("c".to_string()));
    library.insert(Cell::new("b".to_string()));
    let names: Vec<&str> = library.cells.iter().map(|cell| cell.name.as_str()).collect();
    assert_eq!(names, vec!["a", "c", "b"]);
}

#[test]
fn cells_and_elements_are_put_at_a_point() {
    let mut cell = Cell::new("c".to_string());
    cell.add(vec![
        Element::Polygon(triangle(1)),
        Element::Path(Path::new(vec![Point::new(5, 5), Point::new(6, 7)], 0, 0, None, None).unwrap()),
        Element::Text(label("t", 3)),
        Element::Reference(Reference::new(
            Instance::Cell("d".to_string()),
            Some(Grid::new(
                Point::new(1, 1),
                2,
                1,
                Point::new(3, 1),
                Point::new(1, 1),
                number(1.0),
                number(0.0),
                false,
            )),
        )),
    ]);
    assert!(cell.move_to(Point::new(10, 20)));
    assert_eq!(cell.polygons[0].points[1], Point::new(14, 20));
    assert_eq!(cell.paths[0].points, vec![Point::new(10, 20), Point::new(11, 22)]);
    assert_eq!(cell.texts[0].origin, Point::new(10, 20));
    assert_eq!(cell.references[0].grid.origin, Point::new(10, 20));
    assert_eq!(cell.references[0].grid.corner_x, Point::new(12, 20));
    let before = cell.copy();
    assert!(!cell.move_to(Point::new(i32::MAX, 0)));
    assert!(cell.is_equal(&before, 1));
    cell.polygons.push(Polygon { points: vec![], layer: 0, data_type: 0 });
    assert!(!cell.move_to(Point::new(0, 0)));
    let mut element = Element::Text(label("t", 3));
    assert!(element.move_to(Point::new(i32::MIN, i32::MAX)));
    let mut polygon = Element::Polygon(triangle(1));
    assert!(polygon.move_to(Point::new(-4, 0)));
    assert!(matches!(&polygon, Element::Polygon(found) if found.points[1] == Point::new(0, 0)));
    assert!(!polygon.move_to(Point::new(i32::MAX, 0)));
}

#[test]
fn libraries_agree_whatever_the_order_of_their_cells() {
    let mut a = Cell::new("a".to_string());
    a.add_element(Element::Polygon(triangle(1)));
    let b = Cell::new("b".to_string());
    let mut first = Library::new("lib".to_string());
    first.add(vec![a.copy(), b.copy()], false).unwrap();
    let mut second = Library::new("lib".to_string());
    second.add(vec![b.copy(), a.copy()], false).unwrap();
    assert!(first.is_equal(&second, 1));
    assert!(second.is_equal(&first, 1));
    assert!(first.is_equal(&first.copy(), 1));
    let mut named = first.copy();
    named.name = "other".to_string();
    assert!(!first.is_equal(&named, 1));
    let mut fewer = Library::new("lib".to_string());
    fewer.add(vec![a.copy()], false).unwrap();
    assert!(!first.is_equal(&fewer, 1));
    let mut changed = Library::new("lib".to_string());
    changed.add(vec![Cell::new("a".to_string()), b.copy()], false).unwrap();
    assert!(!first.is_equal(&changed, 1));
    let mut renamed = Library::new("lib".to_string());
    renamed.add(vec![a.copy(), Cell::new("c".to_string())], false).unwrap();
    assert!(!first.is_equal(&renamed, 1));
}

#[test]
fn styles_and_anchors_have_their_names() {
    assert_eq!(PathType::Square.name(), "Square Ends");
    assert_eq!(PathType::Round.name(), "Round Ends");
    assert_eq!(PathType::Overlap.name(), "Overlap Ends");
    assert_eq!(VerticalPresentation::Top.name(), "Top");
    assert_eq!(VerticalPresentation::Middle.name(), "Middle");
    assert_eq!(VerticalPresentation::Bottom.name(), "Bottom");
    assert_eq!(HorizontalPresentation::Left.name(), "Left");
    assert_eq!(HorizontalPresentation::Centre.name(), "Centre");
    assert_eq!(HorizontalPresentation::Right.name(), "Right");
}
