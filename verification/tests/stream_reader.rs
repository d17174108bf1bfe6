use gdsr::cell::Cell;
use gdsr::config::gds_file_types::{GDSDataType, GDSRecord, GDSRecordData};
use gdsr::element::{Element, Instance, Reference};
use gdsr::error::ReadError;
use gdsr::grid::Grid;
use gdsr::library::Library;
use gdsr::number::Real;
use gdsr::path::{Path, PathType};
use gdsr::point::Point;
use gdsr::polygon::Polygon;
use gdsr::reader::{from_gds, read_i16_be, read_i32_be, read_u64_be, RecordReader};
use gdsr::text::{HorizontalPresentation, Text, VerticalPresentation};
use gdsr::utils::clock::Timestamp;
use gdsr::utils::io::Units;
use gdsr::writer::write_gds;

fn number(value: f64) -> Real {
    Real::from_bits(value.to_bits())
}

fn record(kind: u8, layout: u8, payload: &[u8]) -> Vec<u8> {
    let mut bytes = Vec::new();
    bytes.extend_from_slice(&((payload.len() + 4) as u16).to_be_bytes());
    bytes.push(kind);
    bytes.push(layout);
    bytes.extend_from_slice(payload);
    bytes
}

fn words(values: &[i16]) -> Vec<u8> {
    values.iter().flat_map(|value| value.to_be_bytes()).collect()
}

fn longs(values: &[i32]) -> Vec<u8> {
    values.iter().flat_map(|value| value.to_be_bytes()).collect()
}

fn header() -> Vec<u8> {
    record(0x00, 2, &words(&[600]))
}

fn stream(records: &[Vec<u8>]) -> Vec<u8> {
    let mut bytes = header();
    for one in records {
        bytes.extend_from_slice(one);
    }
    bytes.extend(record(0x04, 0, &[]));
    bytes
}

fn stamp() -> Timestamp {
    Timestamp { year: 2001, month: 12, day: 31, hour: 23, minute: 59, second: 0 }
}

fn units() -> Units {
    Units { user: number(1e-3), meters: number(1e-9) }
}

fn square(layer: i32, data_type: i32) -> Polygon {
    Polygon::new(
        vec![Point::new(0, 0), Point::new(10, 0), Point::new(10, 10), Point::new(0, 10)],
        layer,
        data_type,
    )
    .unwrap()
}

#[test]
fn numbers_are_read_big_endian() {
    assert_eq!(read_i16_be(&[0x00, 0x01, 0xFF, 0xFF, 0x80, 0x00, 0x7F]), vec![1, -1, i16::MIN]);
    assert_eq!(
        read_i32_be(&[0, 0, 0, 5, 0xFF, 0xFF, 0xFF, 0xFE, 0x80, 0, 0, 0, 1, 2]),
        vec![5, -2, i32::MIN]
    );
    assert_eq!(
        read_u64_be(&[1, 2, 3, 4, 5, 6, 7, 8, 0xFF, 0, 0, 0, 0, 0, 0, 1, 9]),
        vec![0x0102_0304_0506_0708, 0xFF00_0000_0000_0001]
    );
    assert_eq!(read_i16_be(&[]), Vec::<i16>::new());
}

#[test]
fn records_are_read_one_by_one() {
    let mut bytes = record(0x0D, 2, &words(&[7]));
    bytes.extend(record(0x10, 3, &longs(&[1, -2])));
    bytes.extend(record(0x1B, 5, &[0x41, 0x20, 0, 0, 0, 0, 0, 0]));
    bytes.extend(record(0x19, 6, b"abc\0"));
    bytes.extend(record(0x11, 0, &[]));
    bytes.extend([1, 2, 3]);
    let mut reader = RecordReader::new(bytes);
    match reader.next() {
        Some(Ok((GDSRecord::Layer, GDSRecordData::I16(values)))) => assert_eq!(values, vec![7]),
        other => panic!("{:?}", other),
    }
    assert_eq!(reader.position, 6);
    match reader.next() {
        Some(Ok((GDSRecord::XY, GDSRecordData::I32(values)))) => assert_eq!(values, vec![1, -2]),
        other => panic!("{:?}", other),
    }
    match reader.next() {
        Some(Ok((GDSRecord::Mag, GDSRecordData::F64(values)))) => {
            assert_eq!(values, vec![number(2.0)])
        }
        other => panic!("{:?}", other),
    }
    match reader.next() {
        Some(Ok((GDSRecord::String, GDSRecordData::Str(text)))) => assert_eq!(text, "abc"),
        other => panic!("{:?}", other),
    }
    match reader.next() {
        Some(Ok((GDSRecord::EndEl, GDSRecordData::Empty))) => {}
        other => panic!("{:?}", other),
    }
    assert!(reader.next().is_none());
    assert!(reader.next().is_none());
}

#[test]
fn strings_are_read_as_text() {
    let mut reader = RecordReader::new(record(0x19, 6, "gr\u{fc}n".as_bytes()));
    match reader.next() {
        Some(Ok((GDSRecord::String, GDSRecordData::Str(text)))) => assert_eq!(text, "gr\u{fc}n"),
        other => panic!("{:?}", other),
    }
    let mut reader = RecordReader::new(record(0x19, 6, &[b'a', 0xFF, b'b', 0]));
    match reader.next() {
        Some(Ok((GDSRecord::String, GDSRecordData::Str(text)))) => {
            assert_eq!(text, "a\u{fffd}b")
        }
        other => panic!("{:?}", other),
    }
    let mut reader = RecordReader::new(record(0x19, 6, &[b'a', 0, 0]));
    match reader.next() {
        Some(Ok((GDSRecord::String, GDSRecordData::Str(text)))) => assert_eq!(text, "a\0"),
        other => panic!("{:?}", other),
    }
}

#[test]
fn a_truncated_record_is_refused() {
    let mut bytes = header();
    bytes.extend([0, 12, 0x10, 3, 0, 0, 0, 1]);
    let mut reader = RecordReader::new(bytes.clone());
    assert!(matches!(reader.next(), Some(Ok((GDSRecord::Header, _)))));
    assert!(matches!(reader.next(), Some(Err(ReadError::TruncatedRecord { offset: 6 }))));
    assert!(reader.next().is_none());
    assert_eq!(from_gds(bytes).err(), Some(ReadError::TruncatedRecord { offset: 6 }));
}

#[test]
fn an_unsupported_layout_is_refused() {
    let mut bytes = header();
    bytes.extend(record(0x0D, 9, &[0, 1]));
    assert_eq!(
        from_gds(bytes).err(),
        Some(ReadError::UnsupportedDataType { offset: 6, tag: 9 })
    );
    let mut bytes = header();
    bytes.extend(record(0x0D, 9, &[]));
    bytes.extend(record(0x04, 0, &[]));
    assert!(from_gds(bytes).is_ok());
}

#[test]
fn an_unknown_record_is_passed_over() {
    let cells = [
        record(0x05, 2, &words(&[0; 12])),
        record(0x06, 6, b"ab"),
        record(0x70, 6, b"whatever"),
        record(0x3C, 0, &[]),
        record(0x08, 0, &[]),
        record(0xC8, 9, &[1, 2, 3, 4]),
        record(0x10, 3, &longs(&[0, 0, 1, 0, 1, 1, 0, 0])),
        record(0x11, 0, &[]),
        record(0x07, 0, &[]),
    ];
    let (library, _) = from_gds(stream(&cells)).unwrap();
    assert_eq!(library.cells.len(), 1);
    assert_eq!(library.cells[0].name, "ab");
    assert_eq!(library.cells[0].polygons.len(), 1);
    assert_eq!(library.cells[0].polygons[0].points.len(), 4);
    let mut reader = RecordReader::new(record(0x70, 6, b"whatever"));
    assert!(matches!(
        reader.next(),
        Some(Err(ReadError::UnknownRecordType { offset: 0, tag: 0x70 }))
    ));
    assert_eq!(reader.position, 12);
}

#[test]
fn a_stream_must_begin_with_a_header() {
    assert_eq!(from_gds(Vec::new()).err(), Some(ReadError::MissingHeader));
    assert_eq!(from_gds(vec![0, 6, 0]).err(), Some(ReadError::MissingHeader));
    assert_eq!(from_gds(record(0x01, 2, &words(&[0; 12]))).err(), Some(ReadError::MissingHeader));
    assert_eq!(from_gds(record(0x99, 2, &[0, 0])).err(), Some(ReadError::MissingHeader));
    assert_eq!(
        from_gds(vec![0, 9, 0, 2, 1]).err(),
        Some(ReadError::TruncatedRecord { offset: 0 })
    );
    let (library, sizes) = from_gds(header()).unwrap();
    assert_eq!(library.name, "Library");
    assert!(library.cells.is_empty());
    assert_eq!(sizes, None);
}

#[test]
fn flags_that_name_no_anchors_are_refused() {
    let cells = [
        record(0x05, 2, &words(&[0; 12])),
        record(0x0C, 0, &[]),
        record(0x17, 1, &words(&[3])),
    ];
    assert_eq!(from_gds(stream(&cells)).err(), Some(ReadError::InvalidPresentation { value: 3 }));
    let cells = [record(0x0C, 0, &[]), record(0x17, 1, &words(&[-1]))];
    assert_eq!(
        from_gds(stream(&cells)).err(),
        Some(ReadError::InvalidPresentation { value: 0xFFFF })
    );
    let cells = [record(0x17, 1, &words(&[3]))];
    assert!(from_gds(stream(&cells)).is_ok());
}

#[test]
fn a_style_that_is_none_is_refused() {
    let cells = [record(0x09, 0, &[]), record(0x21, 2, &words(&[4]))];
    assert_eq!(from_gds(stream(&cells)).err(), Some(ReadError::InvalidPathType { style: 4 }));
    let cells = [record(0x09, 0, &[]), record(0x21, 2, &words(&[-3]))];
    assert_eq!(from_gds(stream(&cells)).err(), Some(ReadError::InvalidPathType { style: -3 }));
}

#[test]
fn records_short_of_values_change_nothing() {
    let cells = [
        record(0x03, 5, &[0x41, 0x10, 0, 0, 0, 0, 0, 0]),
        record(0x05, 2, &[]),
        record(0x06, 6, b"c"),
        record(0x08, 0, &[]),
        record(0x0D, 2, &[1]),
        record(0x0E, 2, &[]),
        record(0x10, 3, &[0, 0, 0, 1, 0, 0, 0, 2, 0, 0, 0]),
        record(0x11, 0, &[]),
        record(0x0B, 0, &[]),
        record(0x13, 2, &words(&[4])),
        record(0x10, 3, &longs(&[1, 1, 2, 2])),
        record(0x11, 0, &[]),
        record(0x07, 0, &[]),
    ];
    let (library, sizes) = from_gds(stream(&cells)).unwrap();
    assert_eq!(sizes, None);
    let cell = &library.cells[0];
    assert_eq!(cell.polygons[0].layer, 0);
    assert_eq!(cell.polygons[0].points, vec![Point::new(1, 2)]);
    assert_eq!(cell.references[0].grid, Grid::single());
}

#[test]
fn a_single_instance_is_read_as_a_grid_of_one() {
    let cells = [
        record(0x05, 2, &words(&[0; 12])),
        record(0x06, 6, b"top\0"),
        record(0x0A, 0, &[]),
        record(0x12, 6, b"leaf"),
        record(0x1A, 1, &[0x80, 0]),
        record(0x1C, 5, &[0x42, 0x5A, 0, 0, 0, 0, 0, 0]),
        record(0x10, 3, &longs(&[30, -40])),
        record(0x11, 0, &[]),
        record(0x07, 0, &[]),
    ];
    let (library, _) = from_gds(stream(&cells)).unwrap();
    let reference = &library.cells[0].references[0];
    assert!(matches!(&reference.instance, Instance::Cell(name) if name == "leaf"));
    assert_eq!(
        reference.grid,
        Grid::new(
            Point::new(30, -40),
            1,
            1,
            Point::new(30, -40),
            Point::new(30, -40),
            number(1.0),
            number(90.0),
            true
        )
    );
}

#[test]
fn a_later_cell_takes_the_place_of_an_earlier_one_of_its_name() {
    let cells = [
        record(0x05, 2, &words(&[0; 12])),
        record(0x06, 6, b"same"),
        record(0x08, 0, &[]),
        record(0x11, 0, &[]),
        record(0x07, 0, &[]),
        record(0x05, 2, &words(&[0; 12])),
        record(0x06, 6, b"else"),
        record(0x07, 0, &[]),
        record(0x05, 2, &words(&[0; 12])),
        record(0x06, 6, b"same"),
        record(0x07, 0, &[]),
    ];
    let (library, _) = from_gds(stream(&cells)).unwrap();
    assert_eq!(library.cells.len(), 2);
    assert_eq!(library.cells[0].name, "same");
    assert!(library.cells[0].is_empty());
    assert_eq!(library.cells[1].name, "else");
}

#[test]
fn what_follows_the_end_of_the_library_is_not_read() {
    let mut bytes = stream(&[record(0x02, 6, b"kept")]);
    bytes.extend(record(0x02, 6, b"lost"));
    bytes.extend([0, 99, 0x10, 3]);
    let (library, _) = from_gds(bytes).unwrap();
    assert_eq!(library.name, "kept");
}

fn nested_library() -> Library {
    let mut leaf = Cell::new("leaf".to_string());
    leaf.add(vec![
        Element::Polygon(square(1, 0)),
        Element::Polygon(square(2, -5)),
        Element::Path(
            Path::new(
                vec![Point::new(-7, 3), Point::new(9, 3), Point::new(9, -20)],
                3,
                1,
                Some(PathType::Overlap),
                Some(250),
            )
            .unwrap(),
        ),
        Element::Path(
            Path::new(vec![Point::new(0, 0), Point::new(1, 1)], 255, 32767, None, None).unwrap(),
        ),
        Element::Text(
            Text::new(
                "label \u{b5}m".to_string(),
                Point::new(5, -5),
                4,
                number(2.5),
                number(45.0),
                true,
                VerticalPresentation::Top,
                HorizontalPresentation::Right,
            )
            .unwrap(),
        ),
        Element::Text(
            Text::new(
                String::new(),
                Point::new(0, 0),
                0,
                number(1.0),
                number(0.0),
                false,
                VerticalPresentation::Middle,
                HorizontalPresentation::Centre,
            )
            .unwrap(),
        ),
    ]);
    let mut row = Cell::new("row".to_string());
    row.add(vec![Element::Reference(Reference::new(
        Instance::Cell("leaf".to_string()),
        Some(Grid::new(
            Point::new(1000, 2000),
            4,
            1,
            Point::new(1000, 2400),
            Point::new(1000, 2000),
            number(1.0),
            number(90.0),
            false,
        )),
    ))]);
    let mut block = Cell::new("block".to_string());
    block.add(vec![
        Element::Reference(Reference::new(
            Instance::Cell("row".to_string()),
            Some(Grid::new(
                Point::new(-5, -5),
                3,
                7,
                Point::new(2995, -5),
                Point::new(-5, 6995),
                number(0.5),
                number(0.0),
                true,
            )),
        )),
        Element::Reference(Reference::new(Instance::Cell("leaf".to_string()), None)),
        Element::Polygon(square(9, 9)),
    ]);
    let mut top = Cell::new("top".to_string());
    top.add(vec![
        Element::Reference(Reference::new(
            Instance::Cell("block".to_string()),
            Some(Grid::new(
                Point::new(0, 0),
                2,
                2,
                Point::new(-70711, 70711),
                Point::new(-70711, -70711),
                number(3.0),
                number(135.0),
                true,
            )),
        )),
        Element::Reference(Reference::new(Instance::Cell("row".to_string()), None)),
    ]);
    let mut library = Library::new("chip".to_string());
    library.add(vec![top, block, row, leaf], false).unwrap();
    library
}

#[test]
fn a_library_comes_back_as_it_was_written() {
    let library = nested_library();
    let bytes = write_gds(&library, units(), stamp()).unwrap();
    let (back, sizes) = from_gds(bytes.clone()).unwrap();
    assert_eq!(sizes, Some(units()));
    assert_eq!(back.name, "chip");
    assert_eq!(back.cells.len(), 4);
    let names: Vec<&str> = back.cells.iter().map(|cell| cell.name.as_str()).collect();
    assert_eq!(names, vec!["top", "block", "row", "leaf"]);
    for cell in &library.cells {
        assert!(back.contains(cell, 1), "{}", cell.name);
    }
    for (read, written) in back.cells.iter().zip(library.cells.iter()) {
        assert!(read.is_equal(written, 1));
        assert!(!read.is_equal(written, 0));
    }
    let again = write_gds(&back, units(), stamp()).unwrap();
    assert_eq!(again, bytes);
}

#[test]
fn the_order_of_writing_is_the_order_of_reading() {
    let mut library = Library::new("order".to_string());
    let mut first = Cell::new("z".to_string());
    first.add_element(Element::Reference(Reference::new(Instance::Cell("a".to_string()), None)));
    library
        .add(vec![Cell::new("m".to_string()), first, Cell::new("a".to_string())], false)
        .unwrap();
    let bytes = write_gds(&library, units(), stamp()).unwrap();
    let (back, _) = from_gds(bytes).unwrap();
    let names: Vec<&str> = back.cells.iter().map(|cell| cell.name.as_str()).collect();
    assert_eq!(names, vec!["m", "z", "a"]);
}

#[test]
fn a_reference_to_a_missing_cell_keeps_its_name() {
    let mut library = Library::new("open".to_string());
    let mut top = Cell::new("top".to_string());
    top.add_element(Element::Reference(Reference::new(
        Instance::Cell("elsewhere".to_string()),
        None,
    )));
    library.add(vec![top], false).unwrap();
    let (back, _) = from_gds(write_gds(&library, units(), stamp()).unwrap()).unwrap();
    assert_eq!(back.cells.len(), 1);
    assert!(matches!(
        &back.cells[0].references[0].instance,
        Instance::Cell(name) if name == "elsewhere"
    ));
}

#[test]
fn twenty_thousand_points_come_back_in_order() {
    let points: Vec<Point> = (0..20000).map(|i| Point::new(3 * i, 7 - i)).collect();
    let polygon = Polygon { points: points.clone(), layer: 6, data_type: 2 };
    let mut cell = Cell::new("big".to_string());
    cell.add_element(Element::Polygon(polygon));
    let mut library = Library::new("large".to_string());
    library.add(vec![cell], false).unwrap();
    let bytes = write_gds(&library, units(), stamp()).unwrap();
    let mut reader = RecordReader::new(bytes.clone());
    let mut lengths = Vec::new();
    while let Some(item) = reader.next() {
        if let Ok((GDSRecord::XY, GDSRecordData::I32(values))) = item {
            lengths.push(values.len() / 2);
        }
    }
    assert_eq!(lengths, vec![8190, 8190, 3620]);
    let (back, _) = from_gds(bytes).unwrap();
    let read = &back.cells[0].polygons[0];
    assert_eq!(read.points.len(), 20000);
    assert_eq!(read.points, points);
    assert_eq!((read.layer, read.data_type), (6, 2));
}

#[test]
fn layouts_are_named_by_their_bytes() {
    assert_eq!(GDSDataType::BitArray.value(), 1);
    assert_eq!(GDSDataType::FourByteReal.value(), 4);
}

#[test]
fn an_array_without_columns_and_rows_has_no_spacing() {
    let cells = [
        record(0x05, 2, &words(&[0; 12])),
        record(0x06, 6, b"top\0"),
        record(0x0B, 0, &[]),
        record(0x12, 6, b"leaf"),
        record(0x13, 2, &words(&[0, 0])),
        record(0x10, 3, &longs(&[5, 6, 50, 6, 5, 60])),
        record(0x11, 0, &[]),
        record(0x07, 0, &[]),
    ];
    let (library, _) = from_gds(stream(&cells)).unwrap();
    let reference = &library.cells[0].references[0];
    assert_eq!((reference.grid.columns, reference.grid.rows), (0, 0));
    assert_eq!(reference.grid.origin, Point::new(5, 6));
    assert_eq!(reference.grid.spacing(), Some((Point::new(0, 0), Point::new(0, 0))));
}

#[test]
fn counts_of_columns_and_rows_are_read_without_a_sign() {
    let cells = [
        record(0x05, 2, &words(&[0; 12])),
        record(0x06, 6, b"top\0"),
        record(0x0B, 0, &[]),
        record(0x12, 6, b"leaf"),
        record(0x13, 2, &[0xFF, 0xFF, 0x80, 0x00]),
        record(0x10, 3, &longs(&[0, 0, 65535, 0, 0, 32768])),
        record(0x11, 0, &[]),
        record(0x07, 0, &[]),
    ];
    let (library, _) = from_gds(stream(&cells)).unwrap();
    let reference = &library.cells[0].references[0];
    assert_eq!((reference.grid.columns, reference.grid.rows), (65535, 32768));
    assert_eq!(reference.grid.spacing(), Some((Point::new(1, 0), Point::new(0, 1))));
}

#[test]
fn a_wide_array_comes_back_as_it_was_written() {
    let mut top = Cell::new("top".to_string());
    let grid = Grid::new(
        Point::new(0, 0),
        40000,
        65535,
        Point::new(80000, 0),
        Point::new(0, 65535),
        number(1.0),
        number(0.0),
        false,
    );
    top.add(vec![Element::Reference(Reference::new(Instance::Cell("leaf".to_string()), Some(grid)))]);
    let mut library = Library::new("wide".to_string());
    library.add(vec![top], false).unwrap();
    let units = Units { user: number(1e-3), meters: number(1e-9) };
    let stamp = Timestamp { year: 2024, month: 1, day: 2, hour: 3, minute: 4, second: 5 };
    let bytes = write_gds(&library, units, stamp).unwrap();
    let (back, _) = from_gds(bytes).unwrap();
    assert_eq!(back.cells[0].references[0].grid, grid);
}

#[test]
fn references_to_bare_elements_come_back_as_what_they_stand_for() {
    let text = Text::new(
        "note".to_string(),
        Point::new(1, 2),
        3,
        number(1.0),
        number(0.0),
        false,
        VerticalPresentation::Top,
        HorizontalPresentation::Left,
    )
    .unwrap();
    let square = Polygon::new(
        vec![Point::new(0, 0), Point::new(4, 0), Point::new(4, 4), Point::new(0, 4)],
        1,
        0,
    )
    .unwrap();
    let pair = Grid::new(
        Point::new(10, 0),
        2,
        1,
        Point::new(30, 0),
        Point::new(10, 0),
        number(1.0),
        number(0.0),
        false,
    );
    let chain = Reference::new(
        Instance::Element(Box::new(Element::Reference(Reference::new(
            Instance::Cell("leaf".to_string()),
            None,
        )))),
        Some(pair),
    );
    let mut top = Cell::new("top".to_string());
    top.add(vec![
        Element::Text(text.copy()),
        Element::Reference(Reference::new(Instance::Cell("leaf".to_string()), None)),
        Element::Reference(Reference::new(
            Instance::Element(Box::new(Element::Text(text.copy()))),
            Some(pair),
        )),
        Element::Reference(chain),
        Element::Reference(Reference::new(
            Instance::Element(Box::new(Element::Polygon(square.copy()))),
            None,
        )),
    ]);
    let mut leaf = Cell::new("leaf".to_string());
    leaf.add(vec![Element::Polygon(square.copy())]);
    let mut library = Library::new("lib".to_string());
    library.add(vec![top, leaf], false).unwrap();
    let units = Units { user: number(1e-3), meters: number(1e-9) };
    let stamp = Timestamp { year: 2024, month: 1, day: 2, hour: 3, minute: 4, second: 5 };
    let bytes = write_gds(&library, units, stamp).unwrap();
    let (back, sizes) = from_gds(bytes).unwrap();
    assert_eq!(sizes, Some(units));
    assert_eq!(back.cells.len(), 2);
    let read = back.get(&"top".to_string()).unwrap();
    assert_eq!(read.texts.len(), 3);
    assert!(read.texts[0].is_equal(&text, 1));
    assert_eq!(read.texts[1].origin, Point::new(11, 2));
    assert_eq!(read.texts[2].origin, Point::new(21, 2));
    assert_eq!(read.polygons.len(), 1);
    assert!(read.polygons[0].is_equal(&square, 1));
    assert_eq!(read.references.len(), 3);
    let origins: Vec<Point> = read.references.iter().map(|reference| reference.grid.origin).collect();
    assert_eq!(origins, vec![Point::new(0, 0), Point::new(10, 0), Point::new(20, 0)]);
    assert!(read
        .references
        .iter()
        .all(|reference| matches!(&reference.instance, Instance::Cell(name) if name == "leaf")));
    assert!(back.get(&"leaf".to_string()).unwrap().is_equal(library.get(&"leaf".to_string()).unwrap(), 1));
    let again = write_gds(&back, units, stamp).unwrap();
    let (twice, _) = from_gds(again).unwrap();
    assert!(twice.is_equal(&back, 1));
}
