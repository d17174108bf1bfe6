use gdsr::cell::Cell;
use gdsr::element::{Element, Instance, Reference};
use gdsr::flatten::{copies_in_grid, spread_in_grid, Placed, Placement};
use gdsr::grid::Grid;
use gdsr::library::Library;
use gdsr::number::Real;
use gdsr::order::cell_order;
use gdsr::path::Path;
use gdsr::point::Point;
use gdsr::polygon::Polygon;
use gdsr::text::{HorizontalPresentation, Text, VerticalPresentation};

fn number(value: f64) -> Real {
    Real::from_bits(value.to_bits())
}

fn square(layer: i32, data_type: i32) -> Polygon {
    Polygon::new(
        vec![Point::new(0, 0), Point::new(10, 0), Point::new(10, 10), Point::new(0, 10)],
        layer,
        data_type,
    )
    .unwrap()
}

fn line(layer: i32, data_type: i32) -> Path {
    Path::new(vec![Point::new(0, 0), Point::new(4, 0)], layer, data_type, None, None).unwrap()
}

fn label(layer: i32) -> Text {
    Text::new(
        "t".to_string(),
        Point::new(1, 1),
        layer,
        number(1.0),
        number(0.0),
        false,
        VerticalPresentation::Middle,
        HorizontalPresentation::Centre,
    )
    .unwrap()
}

fn array(columns: u32, rows: u32) -> Grid {
    Grid::new(
        Point::new(0, 0),
        columns,
        rows,
        Point::new(100 * columns as i32, 0),
        Point::new(0, 100 * rows as i32),
        number(1.0),
        number(0.0),
        false,
    )
}

fn to(name: &str, grid: Grid) -> Element {
    Element::Reference(Reference::new(Instance::Cell(name.to_string()), Some(grid)))
}

fn library() -> Library {
    let mut leaf = Cell::new("leaf".to_string());
    leaf.add(vec![
        Element::Polygon(square(1, 0)),
        Element::Polygon(square(2, 0)),
        Element::Path(line(1, 0)),
        Element::Path(line(1, 7)),
        Element::Text(label(1)),
        Element::Text(label(3)),
    ]);
    let mut mid = Cell::new("mid".to_string());
    mid.add(vec![Element::Polygon(square(1, 0)), to("leaf", array(2, 3))]);
    let mut top = Cell::new("top".to_string());
    top.add(vec![Element::Text(label(1)), to("mid", array(2, 1)), to("leaf", array(1, 1))]);
    let mut library = Library::new("lib".to_string());
    library.add(vec![top, mid, leaf], false).unwrap();
    library
}

fn kinds(list: &[Placed]) -> String {
    list.iter()
        .map(|placed| match &placed.element {
            Element::Polygon(_) => 'g',
            Element::Path(_) => 'p',
            Element::Text(_) => 't',
            Element::Reference(_) => 'r',
        })
        .collect()
}

#[test]
fn a_grid_copies_column_by_column() {
    let grid = array(2, 3);
    let copies = copies_in_grid(grid, &Placed::new(Element::Polygon(square(1, 0))));
    assert_eq!(copies.len(), 6);
    let places: Vec<(u32, u32)> = copies
        .iter()
        .map(|placed| (placed.placements[0].column, placed.placements[0].row))
        .collect();
    assert_eq!(places, vec![(0, 0), (0, 1), (0, 2), (1, 0), (1, 1), (1, 2)]);
    for placed in &copies {
        assert_eq!(placed.placements.len(), 1);
        assert_eq!(placed.placements[0].grid, grid);
        assert!(placed.element.is_equal(&Element::Polygon(square(1, 0)), 1));
    }
}

#[test]
fn a_grid_without_columns_or_rows_copies_nothing() {
    let element = Placed::new(Element::Polygon(square(1, 0)));
    assert!(copies_in_grid(array(0, 5), &element).is_empty());
    assert!(copies_in_grid(array(5, 0), &element).is_empty());
    let reference = Reference::new(Instance::Cell("leaf".to_string()), Some(array(0, 1)));
    assert!(reference.flatten(&library(), &vec![], None).is_empty());
    assert_eq!(reference._get_elements_in_grid(&element).len(), 0);
}

#[test]
fn copies_of_copies_keep_the_inner_copy_first() {
    let inner = array(1, 2);
    let outer = array(2, 1);
    let once = copies_in_grid(inner, &Placed::new(Element::Path(line(0, 0))));
    let twice = spread_in_grid(outer, &once);
    assert_eq!(twice.len(), 4);
    let places: Vec<Vec<(u32, u32)>> = twice
        .iter()
        .map(|placed| placed.placements.iter().map(|one| (one.column, one.row)).collect())
        .collect();
    assert_eq!(
        places,
        vec![
            vec![(0, 0), (0, 0)],
            vec![(0, 0), (1, 0)],
            vec![(0, 1), (0, 0)],
            vec![(0, 1), (1, 0)]
        ]
    );
    assert_eq!(twice[0].placements[0].grid, inner);
    assert_eq!(twice[0].placements[1].grid, outer);
    let copy = twice[1].copy();
    assert_eq!(copy.placements, twice[1].placements);
    let further = twice[1].through(Placement { grid: inner, column: 9, row: 8 });
    assert_eq!(further.placements.len(), 3);
    assert_eq!(further.placements[2].column, 9);
}

#[test]
fn at_depth_zero_references_stay() {
    let library = library();
    let top = library.get(&"top".to_string()).unwrap();
    let elements = top.get_elements(&library, &vec![], Some(0));
    assert_eq!(kinds(&elements), "trr");
    assert!(elements.iter().all(|placed| placed.placements.is_empty()));
    let reference = &top.references[0];
    let alone = reference.flatten(&library, &vec![], Some(0));
    assert_eq!(kinds(&alone), "r");
    assert!(alone[0].element.is_equal(&Element::Reference(reference.copy()), 1));
}

#[test]
fn at_depth_one_one_level_is_expanded() {
    let library = library();
    let top = library.get(&"top".to_string()).unwrap();
    let elements = top.get_elements(&library, &vec![], Some(1));
    assert_eq!(kinds(&elements), "tggrrggpptt");
    let deep: Vec<usize> = elements.iter().map(|placed| placed.placements.len()).collect();
    assert_eq!(deep, vec![0, 1, 1, 1, 1, 1, 1, 1, 1, 1, 1]);
    match &elements[3].element {
        Element::Reference(inner) => {
            assert!(matches!(&inner.instance, Instance::Cell(name) if name == "leaf"));
            assert_eq!(inner.grid, array(2, 3));
        }
        _ => panic!(),
    }
    assert_eq!(elements[3].placements[0].grid, array(2, 1));
    assert_eq!((elements[1].placements[0].column, elements[2].placements[0].column), (0, 1));
    assert_eq!((elements[3].placements[0].column, elements[4].placements[0].column), (0, 1));
}

#[test]
fn without_a_depth_no_reference_is_left() {
    let library = library();
    let top = library.get(&"top".to_string()).unwrap();
    let elements = top.get_elements(&library, &vec![], None);
    assert!(!kinds(&elements).contains('r'));
    assert_eq!(elements.len(), 1 + 2 * (1 + 6 * 6) + 6);
    let two = top.get_elements(&library, &vec![], Some(2));
    assert_eq!(kinds(&two), kinds(&elements));
    let many = top.get_elements(&library, &vec![], Some(50));
    assert_eq!(kinds(&many), kinds(&elements));
    let first_leaf: Vec<(u32, u32)> =
        elements[3].placements.iter().map(|one| (one.column, one.row)).collect();
    assert_eq!(first_leaf, vec![(0, 0), (0, 0)]);
    let second_leaf: Vec<(u32, u32)> =
        elements[4].placements.iter().map(|one| (one.column, one.row)).collect();
    assert_eq!(second_leaf, vec![(0, 0), (1, 0)]);
    assert_eq!(elements[3].placements[0].grid, array(2, 3));
    assert_eq!(elements[3].placements[1].grid, array(2, 1));
}

#[test]
fn a_filter_keeps_its_layers_only() {
    let library = library();
    let top = library.get(&"top".to_string()).unwrap();
    let filter = vec![(1, 0)];
    let elements = top.get_elements(&library, &filter, None);
    assert_eq!(elements.len(), 1 + 2 * (1 + 6 * 3) + 3);
    for placed in &elements {
        match &placed.element {
            Element::Polygon(polygon) => assert_eq!((polygon.layer, polygon.data_type), (1, 0)),
            Element::Path(path) => assert_eq!((path.layer, path.data_type), (1, 0)),
            Element::Text(text) => assert_eq!(text.layer, 1),
            Element::Reference(_) => panic!(),
        }
    }
    let shallow = top.get_elements(&library, &filter, Some(0));
    assert_eq!(kinds(&shallow), "t");
    let none = top.get_elements(&library, &vec![(9, 9)], None);
    assert!(none.is_empty());
    let both = top.get_elements(&library, &vec![(2, 0), (1, 7), (3, 100)], None);
    assert_eq!(both.len(), 1 + 2 * 6 * 4 + 4);
    let leaf = library.get(&"leaf".to_string()).unwrap();
    assert_eq!(kinds(&leaf.get_elements(&library, &vec![], None)), "ggpptt");
    assert_eq!(kinds(&leaf.get_elements(&library, &vec![(1, 0)], None)), "gpt");
}

#[test]
fn a_reference_to_an_element_is_filtered_by_the_element() {
    let library = Library::new("none".to_string());
    let reference =
        Reference::new(Instance::Element(Box::new(Element::Polygon(square(1, 0)))), Some(array(2, 2)));
    assert_eq!(reference.flatten(&library, &vec![], None).len(), 4);
    assert_eq!(reference.flatten(&library, &vec![(1, 0)], Some(1)).len(), 4);
    assert_eq!(reference.flatten(&library, &vec![(2, 0)], None).len(), 0);
    let text = Reference::new(Instance::Element(Box::new(Element::Text(label(5)))), None);
    assert_eq!(text.flatten(&library, &vec![(5, 77)], None).len(), 1);
    assert_eq!(text.flatten(&library, &vec![(4, 77)], None).len(), 0);
    let nested = Reference::new(
        Instance::Element(Box::new(Element::Reference(reference.copy()))),
        Some(array(3, 1)),
    );
    assert_eq!(kinds(&nested.flatten(&library, &vec![], Some(1))), "rrr");
    let flat = nested.flatten(&library, &vec![], Some(2));
    assert_eq!(kinds(&flat), "gggggggggggg");
    assert_eq!(flat[0].placements.len(), 2);
    assert_eq!(flat[0].placements[0].grid, array(2, 2));
    assert_eq!(flat[0].placements[1].grid, array(3, 1));
}

#[test]
fn a_missing_cell_counts_as_empty() {
    let library = library();
    let reference = Reference::new(Instance::Cell("nowhere".to_string()), Some(array(3, 3)));
    assert!(reference.flatten(&library, &vec![], None).is_empty());
    assert_eq!(kinds(&reference.flatten(&library, &vec![], Some(0))), "r");
}

#[test]
fn a_circle_of_references_ends_at_the_depth() {
    let mut a = Cell::new("a".to_string());
    a.add(vec![Element::Polygon(square(1, 0)), to("b", array(1, 1))]);
    let mut b = Cell::new("b".to_string());
    b.add(vec![to("a", array(1, 1))]);
    let mut library = Library::new("ring".to_string());
    library.add(vec![a, b], false).unwrap();
    let start = library.get(&"a".to_string()).unwrap();
    let elements = start.get_elements(&library, &vec![], Some(7));
    assert_eq!(kinds(&elements), "ggggr");
    assert_eq!(cell_order(&library), vec![0, 1]);
}

/// The image of a point under one placement, by the order that a grid asks for: mirror
/// about the x axis, turn about the origin of the coordinates, enlarge, then displace to
/// the lattice point, which the corners of the grid give already turned.
fn image(point: (f64, f64), placement: &Placement) -> (f64, f64) {
    let grid = &placement.grid;
    let angle = f64::from_bits(grid.angle.to_bits()).to_radians();
    let magnification = f64::from_bits(grid.magnification.to_bits());
    let (mut x, mut y) = point;
    if grid.x_reflection {
        y = -y;
    }
    let (turned_x, turned_y) = (x * angle.cos() - y * angle.sin(), x * angle.sin() + y * angle.cos());
    x = turned_x * magnification;
    y = turned_y * magnification;
    let step = |corner: Point, count: u32, index: u32| {
        if count == 0 {
            (0.0, 0.0)
        } else {
            (
                (corner.x - grid.origin.x) as f64 * index as f64 / count as f64,
                (corner.y - grid.origin.y) as f64 * index as f64 / count as f64,
            )
        }
    };
    let across = step(grid.corner_x, grid.columns, placement.column);
    let up = step(grid.corner_y, grid.rows, placement.row);
    (
        x + grid.origin.x as f64 + across.0 + up.0,
        y + grid.origin.y as f64 + across.1 + up.1,
    )
}

#[test]
fn placements_compose_mirror_turn_enlarge_displace() {
    let grid = Grid::new(
        Point::new(10, 0),
        2,
        1,
        Point::new(10, 10),
        Point::new(10, 0),
        number(2.0),
        number(90.0),
        false,
    );
    let marker = Path::new(vec![Point::new(1, 0), Point::new(1, 0)], 0, 0, None, None).unwrap();
    let reference = Reference::new(Instance::Element(Box::new(Element::Path(marker))), Some(grid));
    let placed = reference.flatten(&Library::new("none".to_string()), &vec![], None);
    assert_eq!(placed.len(), 2);
    let mut images = Vec::new();
    for one in &placed {
        let mut point = match &one.element {
            Element::Path(path) => (path.points[0].x as f64, path.points[0].y as f64),
            _ => panic!(),
        };
        for placement in &one.placements {
            point = image(point, placement);
        }
        images.push((point.0.round() as i64, point.1.round() as i64));
    }
    assert_eq!(images, vec![(10, 2), (10, 7)]);
}

#[test]
fn cells_are_written_in_the_order_they_are_met() {
    let library = library();
    assert_eq!(cell_order(&library), vec![0, 1, 2]);
    let mut other = Library::new("o".to_string());
    let mut last = Cell::new("last".to_string());
    last.add(vec![to("second", array(1, 1)), to("first", array(1, 1)), to("gone", array(1, 1))]);
    let mut second = Cell::new("second".to_string());
    second.add(vec![to("third", array(1, 1)), to("first", array(1, 1)), to("last", array(1, 1))]);
    other
        .add(
            vec![
                Cell::new("lone".to_string()),
                last,
                Cell::new("first".to_string()),
                second,
                Cell::new("third".to_string()),
            ],
            false,
        )
        .unwrap();
    assert_eq!(cell_order(&other), vec![0, 1, 3, 2, 4]);
    assert_eq!(cell_order(&Library::new("e".to_string())), Vec::<usize>::new());
}

#[test]
fn a_library_without_circles_settles() {
    let library = library();
    let top = library.get(&"top".to_string()).unwrap();
    assert!(!top.settles_within(&library, 0));
    assert!(!top.settles_within(&library, 1));
    assert!(top.settles_within(&library, 2));
    assert!(top.settles_within(&library, 40));
    let leaf = library.get(&"leaf".to_string()).unwrap();
    assert!(leaf.settles_within(&library, 0));
    let reference = &top.references[1];
    assert!(!reference.settles_within(&library, 0));
    assert!(reference.settles_within(&library, 1));
    let gone = Reference::new(Instance::Cell("gone".to_string()), None);
    assert!(gone.settles_within(&library, 1));
    let nested = Reference::new(
        Instance::Element(Box::new(Element::Reference(Reference::new(
            Instance::Element(Box::new(Element::Polygon(square(1, 0)))),
            None,
        )))),
        None,
    );
    assert!(!nested.settles_within(&library, 1));
    assert!(nested.settles_within(&library, 2));
}

#[test]
fn a_circle_of_references_never_settles() {
    let mut a = Cell::new("a".to_string());
    a.add(vec![to("b", array(1, 1))]);
    let mut b = Cell::new("b".to_string());
    b.add(vec![to("a", array(1, 1))]);
    let mut own = Cell::new("own".to_string());
    own.add(vec![to("own", array(1, 1))]);
    let mut library = Library::new("ring".to_string());
    library.add(vec![a, b, own], false).unwrap();
    for cell in &library.cells {
        for depth in [0, 1, 2, 5, 12] {
            assert!(!cell.settles_within(&library, depth));
        }
    }
}

#[test]
fn names_without_cells_are_reported() {
    let library = library();
    assert!(library.missing_cells().is_empty());
    let mut other = Library::new("o".to_string());
    let mut first = Cell::new("first".to_string());
    first.add(vec![
        to("gone", array(1, 1)),
        to("second", array(1, 1)),
        to("lost", array(1, 1)),
        to("gone", array(1, 1)),
        Element::Reference(Reference::new(
            Instance::Element(Box::new(to("hidden", array(1, 1)))),
            None,
        )),
    ]);
    let mut second = Cell::new("second".to_string());
    second.add(vec![to("first", array(1, 1)), to("away", array(1, 1))]);
    other.add(vec![first, second], false).unwrap();
    assert_eq!(other.missing_cells(), vec!["gone", "lost", "gone", "hidden", "away"]);
}

#[test]
fn a_circle_of_references_is_cut_where_it_closes() {
    let mut a = Cell::new("a".to_string());
    a.add(vec![Element::Polygon(square(1, 0)), to("b", array(1, 2))]);
    let mut b = Cell::new("b".to_string());
    b.add(vec![Element::Path(line(2, 0)), to("a", array(1, 1)), to("b", array(1, 1))]);
    let mut library = Library::new("ring".to_string());
    library.add(vec![a, b], false).unwrap();
    let start = library.get(&"a".to_string()).unwrap();
    let elements = start.get_elements(&library, &vec![], None);
    assert_eq!(kinds(&elements), "gpprrrr");
    let left: Vec<String> = elements
        .iter()
        .filter_map(|placed| match &placed.element {
            Element::Reference(Reference { instance: Instance::Cell(name), .. }) => Some(name.clone()),
            _ => None,
        })
        .collect();
    assert_eq!(left, vec!["a", "a", "b", "b"]);
    assert_eq!(elements[3].placements.len(), 1);
    let from_outside = Reference::new(Instance::Cell("a".to_string()), None);
    let elements = from_outside.flatten(&library, &vec![], None);
    assert_eq!(kinds(&elements), "gpprrrr");
    let own = Reference::new(Instance::Cell("b".to_string()), None);
    assert_eq!(kinds(&own.flatten(&library, &vec![], None)), "pgrr");
    let filtered = start.get_elements(&library, &vec![(2, 0)], None);
    assert_eq!(kinds(&filtered), "pp");
}

#[test]
fn a_cell_is_flattened_though_its_references_run_in_a_circle() {
    let mut a = Cell::new("a".to_string());
    a.add(vec![Element::Polygon(square(1, 0)), to("b", array(2, 1))]);
    let mut b = Cell::new("b".to_string());
    b.add(vec![Element::Polygon(square(3, 0)), to("a", array(1, 1))]);
    let mut library = Library::new("ring".to_string());
    library.add(vec![a.copy(), b], false).unwrap();
    assert!(a.flatten(&library, &vec![], None));
    assert_eq!(a.name, "a");
    assert_eq!(a.polygons.len(), 3);
    assert_eq!(a.polygons[0].layer, 1);
    assert_eq!(a.polygons[2].points[0], Point::new(100, 0));
    assert_eq!(a.references.len(), 2);
    assert!(matches!(&a.references[1].instance, Instance::Cell(name) if name == "a"));
}

#[test]
fn without_a_depth_a_deep_library_is_resolved_to_the_bottom() {
    let mut library = Library::new("deep".to_string());
    let mut leaf = Cell::new("c0".to_string());
    leaf.add(vec![Element::Polygon(square(1, 0))]);
    library.add(vec![leaf], false).unwrap();
    for level in 1..40 {
        let mut cell = Cell::new(format!("c{}", level));
        cell.add(vec![to(&format!("c{}", level - 1), array(1, 1))]);
        library.add(vec![cell], false).unwrap();
    }
    let top = library.get(&"c39".to_string()).unwrap();
    let elements = top.get_elements(&library, &vec![], None);
    assert_eq!(kinds(&elements), "g");
    assert_eq!(elements[0].placements.len(), 39);
    assert_eq!(kinds(&top.get_elements(&library, &vec![], Some(38))), "r");
    let mut twice = Cell::new("twice".to_string());
    twice.add(vec![to("c1", array(2, 2)), to("c1", array(1, 3))]);
    assert_eq!(kinds(&twice.get_elements(&library, &vec![], None)), "ggggggg");
}

#[test]
fn names_behind_chains_of_references_are_reported() {
    let mut top = Cell::new("top".to_string());
    top.add(vec![
        Element::Reference(Reference::new(
            Instance::Element(Box::new(to("gone", array(1, 1)))),
            None,
        )),
        Element::Reference(Reference::new(
            Instance::Element(Box::new(Element::Polygon(square(1, 0)))),
            None,
        )),
        to("top", array(1, 1)),
    ]);
    let mut library = Library::new("l".to_string());
    library.add(vec![top], false).unwrap();
    assert_eq!(library.missing_cells(), vec!["gone"]);
}
