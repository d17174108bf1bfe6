use gdsr::cell::Cell;
use gdsr::config::gds_file_types::{GDSDataType, GDSRecord};
use gdsr::element::{Element, Instance, Reference};
use gdsr::error::WriteError;
use gdsr::grid::Grid;
use gdsr::library::Library;
use gdsr::number::Real;
use gdsr::path::{Path, PathType};
use gdsr::point::Point;
use gdsr::polygon::Polygon;
use gdsr::text::{HorizontalPresentation, Text, VerticalPresentation};
use gdsr::utils::clock::Timestamp;
use gdsr::utils::io::{
    write_element_tail_to_file, write_float_to_eight_byte_real_to_file, write_gds_head_to_file,
    write_gds_tail_to_file, write_points_to_file, write_string_with_record_to_file,
    write_transformation_to_file, write_u16_array_to_file, Units,
};
use gdsr::writer::{write_gds, ToGds};

fn number(value: f64) -> Real {
    Real::from_bits(value.to_bits())
}

fn record(kind: GDSRecord, layout: GDSDataType, payload: &[u8]) -> Vec<u8> {
    let mut bytes = Vec::new();
    bytes.extend_from_slice(&((payload.len() + 4) as u16).to_be_bytes());
    bytes.push(kind.value());
    bytes.push(layout.value());
    bytes.extend_from_slice(payload);
    bytes
}

fn words(values: &[i16]) -> Vec<u8> {
    values.iter().flat_map(|value| value.to_be_bytes()).collect()
}

fn longs(values: &[i32]) -> Vec<u8> {
    values.iter().flat_map(|value| value.to_be_bytes()).collect()
}

fn stamp() -> Timestamp {
    Timestamp { year: 2024, month: 2, day: 29, hour: 13, minute: 5, second: 59 }
}

fn units() -> Units {
    Units { user: number(1e-4), meters: number(1e-10) }
}

fn square(layer: i32, data_type: i32) -> Polygon {
    Polygon::new(
        vec![Point::new(0, 0), Point::new(10, 0), Point::new(10, 10), Point::new(0, 10)],
        layer,
        data_type,
    )
    .unwrap()
}

#[test]
fn words_are_written_big_endian() {
    let mut file = vec![9u8];
    write_u16_array_to_file(&mut file, &[0x0102, 0xFFFE]);
    assert_eq!(file, vec![9, 1, 2, 0xFF, 0xFE]);
}

#[test]
fn element_tail_is_one_record() {
    let mut file = Vec::new();
    write_element_tail_to_file(&mut file);
    assert_eq!(file, vec![0, 4, 0x11, 0]);
}

#[test]
fn stream_tail_is_one_record() {
    let mut file = Vec::new();
    write_gds_tail_to_file(&mut file);
    assert_eq!(file, vec![0, 4, 0x04, 0]);
}

#[test]
fn strings_are_padded_to_even_length() {
    let mut file = Vec::new();
    assert_eq!(write_string_with_record_to_file(&mut file, GDSRecord::LibName, "abc"), Ok(()));
    assert_eq!(file, vec![0, 8, 0x02, 6, b'a', b'b', b'c', 0]);
    let mut file = Vec::new();
    assert_eq!(write_string_with_record_to_file(&mut file, GDSRecord::StrName, "top1"), Ok(()));
    assert_eq!(file, vec![0, 8, 0x06, 6, b't', b'o', b'p', b'1']);
    let mut file = Vec::new();
    assert_eq!(write_string_with_record_to_file(&mut file, GDSRecord::String, ""), Ok(()));
    assert_eq!(file, vec![0, 4, 0x19, 6]);
}

#[test]
fn strings_that_fit_no_record_are_refused() {
    let mut file = vec![1u8, 2, 3];
    let long = "x".repeat(65531);
    assert_eq!(
        write_string_with_record_to_file(&mut file, GDSRecord::String, &long),
        Err(WriteError::NameTooLong)
    );
    assert_eq!(file, vec![1, 2, 3]);
    let longest = "y".repeat(65530);
    assert_eq!(write_string_with_record_to_file(&mut file, GDSRecord::String, &longest), Ok(()));
    assert_eq!(file.len(), 3 + 4 + 65530);
    assert_eq!(&file[3..7], &[0xFF, 0xFE, 0x19, 6]);
}

#[test]
fn reals_are_written_as_eight_bytes() {
    let mut file = Vec::new();
    assert_eq!(write_float_to_eight_byte_real_to_file(&mut file, number(1.0)), Ok(()));
    assert_eq!(file, vec![0x41, 0x10, 0, 0, 0, 0, 0, 0]);
    assert_eq!(
        write_float_to_eight_byte_real_to_file(&mut file, number(f64::NAN)),
        Err(WriteError::UnrepresentableReal)
    );
    assert_eq!(file.len(), 8);
}

#[test]
fn points_are_written_as_signed_longs() {
    let mut file = Vec::new();
    write_points_to_file(&mut file, &vec![Point::new(1, -1), Point::new(i32::MIN, i32::MAX)]);
    assert_eq!(
        file,
        record(
            GDSRecord::XY,
            GDSDataType::FourByteSignedInteger,
            &longs(&[1, -1, i32::MIN, i32::MAX])
        )
    );
    let mut file = Vec::new();
    write_points_to_file(&mut file, &Vec::new());
    assert!(file.is_empty());
}

#[test]
fn long_point_lists_are_split_at_8190() {
    let points: Vec<Point> = (0..20000).map(|i| Point::new(i, -i)).collect();
    let mut file = Vec::new();
    write_points_to_file(&mut file, &points);
    assert_eq!(file.len(), 3 * 4 + 8 * 20000);
    let first = 4 + 8 * 8190;
    assert_eq!(&file[0..4], &[(first >> 8) as u8, (first & 0xFF) as u8, 0x10, 3]);
    assert_eq!(&file[first..first + 4], &[(first >> 8) as u8, (first & 0xFF) as u8, 0x10, 3]);
    let last = 4 + 8 * (20000 - 2 * 8190);
    assert_eq!(
        &file[2 * first..2 * first + 4],
        &[(last >> 8) as u8, (last & 0xFF) as u8, 0x10, 3]
    );
    assert_eq!(&file[first + 4..first + 12], &longs(&[8190, -8190])[..]);
    let mut exact = Vec::new();
    write_points_to_file(&mut exact, &points[..8190].to_vec());
    assert_eq!(exact.len(), first);
    let mut over = Vec::new();
    write_points_to_file(&mut over, &points[..8191].to_vec());
    assert_eq!(over.len(), first + 4 + 8);
}

#[test]
fn a_plain_transformation_writes_nothing() {
    let mut file = Vec::new();
    assert_eq!(write_transformation_to_file(&mut file, number(0.0), number(1.0), false), Ok(()));
    assert!(file.is_empty());
    assert_eq!(write_transformation_to_file(&mut file, number(-0.0), number(1.0), false), Ok(()));
    assert!(file.is_empty());
}

#[test]
fn each_part_of_a_transformation_is_left_out_at_its_default() {
    let mut file = Vec::new();
    assert_eq!(write_transformation_to_file(&mut file, number(0.0), number(1.0), true), Ok(()));
    assert_eq!(file, vec![0, 6, 0x1A, 1, 0x80, 0]);

    let mut file = Vec::new();
    assert_eq!(write_transformation_to_file(&mut file, number(90.0), number(1.0), false), Ok(()));
    let mut expected = vec![0, 6, 0x1A, 1, 0, 0];
    expected.extend(record(
        GDSRecord::Angle,
        GDSDataType::EightByteReal,
        &[0x42, 0x5A, 0, 0, 0, 0, 0, 0],
    ));
    assert_eq!(file, expected);

    let mut file = Vec::new();
    assert_eq!(write_transformation_to_file(&mut file, number(90.0), number(2.0), true), Ok(()));
    let mut expected = vec![0, 6, 0x1A, 1, 0x80, 0];
    expected.extend(record(
        GDSRecord::Mag,
        GDSDataType::EightByteReal,
        &[0x41, 0x20, 0, 0, 0, 0, 0, 0],
    ));
    expected.extend(record(
        GDSRecord::Angle,
        GDSDataType::EightByteReal,
        &[0x42, 0x5A, 0, 0, 0, 0, 0, 0],
    ));
    assert_eq!(file, expected);
}

#[test]
fn a_transformation_that_cannot_be_held_leaves_the_file() {
    let mut file = vec![7u8];
    assert_eq!(
        write_transformation_to_file(&mut file, number(f64::INFINITY), number(2.0), true),
        Err(WriteError::UnrepresentableReal)
    );
    assert_eq!(file, vec![7]);
    assert_eq!(
        write_transformation_to_file(&mut file, number(1.0), number(f64::NAN), false),
        Err(WriteError::UnrepresentableReal)
    );
    assert_eq!(file, vec![7]);
}

#[test]
fn head_holds_version_stamps_name_and_units() {
    let mut file = Vec::new();
    assert_eq!(write_gds_head_to_file(&mut file, "lib", units(), stamp()), Ok(()));
    let mut expected = record(GDSRecord::Header, GDSDataType::TwoByteSignedInteger, &words(&[600]));
    expected.extend(record(
        GDSRecord::BgnLib,
        GDSDataType::TwoByteSignedInteger,
        &words(&[2024, 2, 29, 13, 5, 59, 2024, 2, 29, 13, 5, 59]),
    ));
    expected.extend(record(GDSRecord::LibName, GDSDataType::AsciiString, b"lib\0"));
    let mut sizes = by_formula(1e-4).to_vec();
    sizes.extend(by_formula(1e-10));
    expected.extend(record(GDSRecord::Units, GDSDataType::EightByteReal, &sizes));
    assert_eq!(file, expected);
    assert_eq!(file.len(), 62);
    assert_eq!(file[file.len() - 16], 0x3D);
    assert_eq!(file[file.len() - 8], 0x38);
}

/// The eight-byte real of a positive number, by the formula of the format.
fn by_formula(value: f64) -> [u8; 8] {
    let quarter = value.log2() / 4.0;
    let mut exponent = quarter.ceil() as i32;
    if quarter == exponent as f64 {
        exponent += 1;
    }
    let mantissa = (value * 16f64.powi(14 - exponent)).round() as u64;
    ((((exponent + 64) as u64) << 56) | mantissa).to_be_bytes()
}

#[test]
fn head_with_units_that_cannot_be_held_is_refused() {
    let mut file = vec![5u8];
    let bad = Units { user: number(0.001), meters: number(f64::NAN) };
    assert_eq!(
        write_gds_head_to_file(&mut file, "lib", bad, stamp()),
        Err(WriteError::UnrepresentableReal)
    );
    assert_eq!(file, vec![5]);
}

#[test]
fn a_polygon_is_written_record_by_record() {
    let polygon = square(3, 7);
    let mut file = Vec::new();
    assert_eq!(polygon._to_gds(&mut file), Ok(()));
    let mut expected = record(GDSRecord::Boundary, GDSDataType::NoData, &[]);
    expected.extend(record(GDSRecord::Layer, GDSDataType::TwoByteSignedInteger, &words(&[3])));
    expected.extend(record(GDSRecord::DataType, GDSDataType::TwoByteSignedInteger, &words(&[7])));
    expected.extend(record(
        GDSRecord::XY,
        GDSDataType::FourByteSignedInteger,
        &longs(&[0, 0, 10, 0, 10, 10, 0, 10, 0, 0]),
    ));
    expected.extend(record(GDSRecord::EndEl, GDSDataType::NoData, &[]));
    assert_eq!(file, expected);
}

#[test]
fn a_path_is_written_with_its_style_and_width() {
    let path = Path::new(
        vec![Point::new(0, 0), Point::new(5, 5)],
        1,
        2,
        Some(PathType::Round),
        Some(300),
    )
    .unwrap();
    let mut file = Vec::new();
    assert_eq!(path._to_gds(&mut file), Ok(()));
    let mut expected = record(GDSRecord::Path, GDSDataType::NoData, &[]);
    expected.extend(record(GDSRecord::Layer, GDSDataType::TwoByteSignedInteger, &words(&[1])));
    expected.extend(record(GDSRecord::DataType, GDSDataType::TwoByteSignedInteger, &words(&[2])));
    expected.extend(record(GDSRecord::PathType, GDSDataType::TwoByteSignedInteger, &words(&[1])));
    expected.extend(record(GDSRecord::Width, GDSDataType::FourByteSignedInteger, &longs(&[300])));
    expected.extend(record(
        GDSRecord::XY,
        GDSDataType::FourByteSignedInteger,
        &longs(&[0, 0, 5, 5]),
    ));
    expected.extend(record(GDSRecord::EndEl, GDSDataType::NoData, &[]));
    assert_eq!(file, expected);

    let bare = Path::new(vec![Point::new(0, 0), Point::new(5, 5)], 1, 2, None, None).unwrap();
    let mut file = Vec::new();
    assert_eq!(bare._to_gds(&mut file), Ok(()));
    assert_eq!(file.len(), 4 + 6 + 6 + 4 + 16 + 4);
}

#[test]
fn a_path_of_one_point_is_not_written() {
    let path = Path {
        points: vec![Point::new(1, 1)],
        layer: 0,
        data_type: 0,
        path_type: None,
        width: None,
    };
    let mut file = vec![1u8];
    assert_eq!(path._to_gds(&mut file), Err(WriteError::PathTooShort));
    assert_eq!(file, vec![1]);
}

#[test]
fn a_text_is_written_record_by_record() {
    let text = Text::new(
        "hi!".to_string(),
        Point::new(-4, 9),
        5,
        number(1.0),
        number(0.0),
        true,
        VerticalPresentation::Bottom,
        HorizontalPresentation::Centre,
    )
    .unwrap();
    let mut file = Vec::new();
    assert_eq!(text._to_gds(&mut file), Ok(()));
    let mut expected = record(GDSRecord::Text, GDSDataType::NoData, &[]);
    expected.extend(record(GDSRecord::Layer, GDSDataType::TwoByteSignedInteger, &words(&[5])));
    expected.extend(record(GDSRecord::TextType, GDSDataType::TwoByteSignedInteger, &words(&[0])));
    expected.extend(record(GDSRecord::Presentation, GDSDataType::BitArray, &words(&[9])));
    expected.extend(record(GDSRecord::STrans, GDSDataType::BitArray, &[0x80, 0]));
    expected.extend(record(GDSRecord::XY, GDSDataType::FourByteSignedInteger, &longs(&[-4, 9])));
    expected.extend(record(GDSRecord::String, GDSDataType::AsciiString, b"hi!\0"));
    expected.extend(record(GDSRecord::EndEl, GDSDataType::NoData, &[]));
    assert_eq!(file, expected);
}

#[test]
fn a_reference_to_a_cell_is_written_as_an_array() {
    let grid = Grid::new(
        Point::new(100, 0),
        2,
        3,
        Point::new(100, 40),
        Point::new(40, 0),
        number(2.0),
        number(90.0),
        false,
    );
    let reference = Reference::new(Instance::Cell("leaf".to_string()), Some(grid));
    let mut file = Vec::new();
    assert_eq!(reference._to_gds(&mut file), Ok(()));
    let mut expected = record(GDSRecord::ARef, GDSDataType::NoData, &[]);
    expected.extend(record(GDSRecord::SName, GDSDataType::AsciiString, b"leaf"));
    expected.extend(record(GDSRecord::STrans, GDSDataType::BitArray, &[0, 0]));
    expected.extend(record(
        GDSRecord::Mag,
        GDSDataType::EightByteReal,
        &[0x41, 0x20, 0, 0, 0, 0, 0, 0],
    ));
    expected.extend(record(
        GDSRecord::Angle,
        GDSDataType::EightByteReal,
        &[0x42, 0x5A, 0, 0, 0, 0, 0, 0],
    ));
    expected.extend(record(GDSRecord::ColRow, GDSDataType::TwoByteSignedInteger, &words(&[2, 3])));
    expected.extend(record(
        GDSRecord::XY,
        GDSDataType::FourByteSignedInteger,
        &longs(&[100, 0, 100, 40, 40, 0]),
    ));
    expected.extend(record(GDSRecord::EndEl, GDSDataType::NoData, &[]));
    assert_eq!(file, expected);
}

#[test]
fn a_reference_to_a_bare_element_is_written_copy_by_copy() {
    let grid = Grid::new(
        Point::new(100, 0),
        2,
        1,
        Point::new(100, 60),
        Point::new(100, 0),
        number(2.0),
        number(90.0),
        true,
    );
    let reference =
        Reference::new(Instance::Element(Box::new(Element::Polygon(square(3, 1)))), Some(grid));
    let mut file = Vec::new();
    assert_eq!(reference._to_gds(&mut file), Ok(()));
    let mut expected = Vec::new();
    for lift in [0, 30] {
        let copy = Polygon {
            points: vec![
                Point::new(100, lift),
                Point::new(100, 20 + lift),
                Point::new(120, 20 + lift),
                Point::new(120, lift),
                Point::new(100, lift),
            ],
            layer: 3,
            data_type: 1,
        };
        assert_eq!(copy._to_gds(&mut expected), Ok(()));
    }
    assert_eq!(file, expected);
    let shapes = reference.expand().unwrap();
    assert_eq!(shapes.len(), 2);
    assert!(matches!(&shapes[1], Element::Polygon(found) if found.points[2] == Point::new(120, 50)));

    let outer = Reference::new(
        Instance::Element(Box::new(Element::Reference(reference.copy()))),
        Some(Grid {
            origin: Point::new(0, 1000),
            corner_x: Point::new(0, 1000),
            corner_y: Point::new(0, 1000),
            ..Grid::single()
        }),
    );
    let mut nested = Vec::new();
    assert_eq!(outer._to_gds(&mut nested), Ok(()));
    assert_eq!(nested.len(), expected.len());
    assert_eq!(kinds_of(&nested), kinds_of(&expected));
    let mut cell = Cell::new("holder".to_string());
    cell.add(vec![Element::Reference(outer)]);
    let mut file = Vec::new();
    assert_eq!(cell._to_gds(&mut file, stamp()), Ok(()));
    assert_eq!(kinds_of(&file).iter().filter(|kind| **kind == 0x08).count(), 2);
}

#[test]
fn a_reference_that_cannot_be_copied_exactly_is_not_written() {
    let slanted = Reference::new(
        Instance::Element(Box::new(Element::Polygon(square(0, 0)))),
        Some(Grid { angle: number(30.0), ..Grid::single() }),
    );
    let mut file = vec![3u8, 4];
    assert_eq!(slanted._to_gds(&mut file), Err(WriteError::ElementReference));
    assert_eq!(file, vec![3, 4]);
    assert!(slanted.expand().is_none());

    let text = Text::new(
        "t".to_string(),
        Point::new(0, 0),
        0,
        number(1.0),
        number(0.0),
        false,
        VerticalPresentation::Top,
        HorizontalPresentation::Left,
    )
    .unwrap();
    let label = Reference::new(
        Instance::Element(Box::new(Element::Text(text))),
        Some(Grid { angle: number(30.0), origin: Point::new(1, 0), ..Grid::single() }),
    );
    assert_eq!(label._to_gds(&mut file), Ok(()));
    file.truncate(2);
    let turned = Reference::new(
        Instance::Element(Box::new(Element::Reference(label.copy()))),
        Some(Grid { angle: number(30.0), ..Grid::single() }),
    );
    assert_eq!(turned._to_gds(&mut file), Err(WriteError::ElementReference));
    assert_eq!(file, vec![3, 4]);
    assert!(turned.expand().is_none());

    let to_cell = Reference::new(
        Instance::Element(Box::new(Element::Reference(Reference::new(
            Instance::Cell("c".to_string()),
            Some(Grid { angle: number(0.5), ..Grid::single() }),
        )))),
        Some(Grid { angle: number(90.0), ..Grid::single() }),
    );
    assert_eq!(to_cell._to_gds(&mut file), Err(WriteError::ElementReference));
    assert_eq!(file, vec![3, 4]);

    let short = Path {
        points: vec![Point::new(1, 1)],
        layer: 0,
        data_type: 0,
        path_type: None,
        width: None,
    };
    let stub = Reference::new(Instance::Element(Box::new(Element::Path(short))), None);
    assert_eq!(stub._to_gds(&mut file), Err(WriteError::PathTooShort));
    assert_eq!(file, vec![3, 4]);

    let mut cell = Cell::new("holder".to_string());
    cell.add(vec![Element::Polygon(square(1, 0)), Element::Reference(slanted)]);
    assert_eq!(cell._to_gds(&mut file, stamp()), Err(WriteError::ElementReference));
    assert_eq!(file, vec![3, 4]);
}

#[test]
fn a_cell_is_written_paths_polygons_texts_references() {
    let mut cell = Cell::new("c".to_string());
    let path = Path::new(vec![Point::new(0, 0), Point::new(1, 0)], 0, 0, None, None).unwrap();
    let text = Text::new(
        "t".to_string(),
        Point::new(0, 0),
        0,
        number(1.0),
        number(0.0),
        false,
        VerticalPresentation::Top,
        HorizontalPresentation::Left,
    )
    .unwrap();
    let reference = Reference::new(Instance::Cell("d".to_string()), None);
    cell.add(vec![
        Element::Reference(reference),
        Element::Text(text),
        Element::Polygon(square(0, 0)),
        Element::Path(path),
    ]);
    let mut file = Vec::new();
    assert_eq!(cell._to_gds(&mut file, stamp()), Ok(()));
    let kinds = kinds_of(&file);
    assert_eq!(
        kinds,
        vec![
            0x05, 0x06, 0x09, 0x0D, 0x0E, 0x10, 0x11, 0x08, 0x0D, 0x0E, 0x10, 0x11, 0x0C, 0x0D,
            0x16, 0x17, 0x10, 0x19, 0x11, 0x0B, 0x12, 0x13, 0x10, 0x11, 0x07
        ]
    );
}

fn kinds_of(stream: &[u8]) -> Vec<u8> {
    let mut kinds = Vec::new();
    let mut position = 0;
    while position + 4 <= stream.len() {
        let size = u16::from_be_bytes([stream[position], stream[position + 1]]) as usize;
        kinds.push(stream[position + 2]);
        position += size.max(4);
    }
    kinds
}

fn names_of(stream: &[u8]) -> Vec<String> {
    let mut names = Vec::new();
    let mut position = 0;
    while position + 4 <= stream.len() {
        let size = u16::from_be_bytes([stream[position], stream[position + 1]]) as usize;
        if stream[position + 2] == 0x06 {
            let text = String::from_utf8_lossy(&stream[position + 4..position + size]);
            names.push(text.trim_end_matches('\0').to_string());
        }
        position += size.max(4);
    }
    names
}

fn cell_with_references(name: &str, targets: &[&str]) -> Cell {
    let mut cell = Cell::new(name.to_string());
    cell.add_element(Element::Polygon(square(1, 0)));
    for target in targets {
        cell.add_element(Element::Reference(Reference::new(
            Instance::Cell(target.to_string()),
            None,
        )));
    }
    cell
}

#[test]
fn every_cell_is_written_once() {
    let mut library = Library::new("many".to_string());
    library
        .add(
            vec![
                cell_with_references("top", &["leaf", "mid", "leaf", "leaf"]),
                cell_with_references("other", &["leaf", "mid", "mid"]),
                cell_with_references("mid", &["leaf", "leaf"]),
                cell_with_references("leaf", &[]),
                cell_with_references("third", &["top", "leaf", "gone"]),
            ],
            false,
        )
        .unwrap();
    let stream = write_gds(&library, units(), stamp()).unwrap();
    let kinds = kinds_of(&stream);
    assert_eq!(kinds.iter().filter(|kind| **kind == 0x05).count(), 5);
    assert_eq!(kinds.iter().filter(|kind| **kind == 0x07).count(), 5);
    assert_eq!(names_of(&stream), vec!["top", "leaf", "mid", "other", "third"]);
    assert_eq!(kinds.first(), Some(&0x00));
    assert_eq!(kinds.last(), Some(&0x04));
}

#[test]
fn writing_is_reproducible() {
    let mut library = Library::new("same".to_string());
    library
        .add(
            vec![cell_with_references("a", &["b"]), cell_with_references("b", &[])],
            false,
        )
        .unwrap();
    let first = write_gds(&library, units(), stamp()).unwrap();
    let second = write_gds(&library.copy(), units(), stamp()).unwrap();
    assert_eq!(first, second);
}

#[test]
fn an_empty_library_is_head_and_tail() {
    let library = Library::new("none".to_string());
    let stream = write_gds(&library, units(), stamp()).unwrap();
    assert_eq!(kinds_of(&stream), vec![0x00, 0x01, 0x02, 0x03, 0x04]);
}

#[test]
fn the_present_moment_is_stamped() {
    let library = Library::new("now".to_string());
    let stream = library.to_gds(units()).unwrap();
    assert_eq!(kinds_of(&stream), vec![0x00, 0x01, 0x02, 0x03, 0x04]);
    let field = |index: usize| u16::from_be_bytes([stream[10 + 2 * index], stream[11 + 2 * index]]);
    assert!(field(0) >= 2024);
    assert!((1..=12).contains(&field(1)));
    assert!((1..=31).contains(&field(2)));
    assert!(field(3) <= 23);
    assert!(field(4) <= 59);
    assert!(field(5) <= 59);
    for index in 0..6 {
        assert_eq!(field(index), field(index + 6));
    }
    let cell = Cell::new("alone".to_string());
    let stream = cell.to_gds(&Library::new("l".to_string()), units()).unwrap();
    assert_eq!(kinds_of(&stream), vec![0x00, 0x01, 0x02, 0x03, 0x05, 0x06, 0x07, 0x04]);
    assert_eq!(names_of(&stream), vec!["alone"]);
    assert_eq!(&stream[34..46], b"\x00\x0C\x02\x06library\0");
}

#[test]
fn a_cell_is_written_with_the_cells_that_it_reaches() {
    let mut library = Library::new("all".to_string());
    library
        .add(
            vec![
                cell_with_references("aside", &["leaf"]),
                cell_with_references("leaf", &[]),
                cell_with_references("top", &["mid", "leaf", "gone", "mid"]),
                cell_with_references("mid", &["deep", "top"]),
                cell_with_references("deep", &[]),
            ],
            false,
        )
        .unwrap();
    assert_eq!(gdsr::order::cells_from(&library, 2), vec![2, 3, 1, 4]);
    assert_eq!(gdsr::order::cells_from(&library, 1), vec![1]);
    assert_eq!(gdsr::order::cells_from(&library, 0), vec![0, 1]);
    assert_eq!(gdsr::order::cells_from(&library, 5), Vec::<usize>::new());
    let stream = gdsr::writer::write_gds_from(&library, 2, units(), stamp()).unwrap();
    assert_eq!(names_of(&stream), vec!["top", "mid", "leaf", "deep"]);
    let top = library.get(&"top".to_string()).unwrap();
    let stream = top.to_gds(&library, units()).unwrap();
    assert_eq!(names_of(&stream), vec!["top", "mid", "leaf", "deep"]);
    let other = cell_with_references("mid", &["aside"]);
    let stream = other.to_gds(&library, units()).unwrap();
    assert_eq!(names_of(&stream), vec!["mid", "aside", "leaf"]);
    let fresh = cell_with_references("fresh", &["deep", "fresh"]);
    let stream = fresh.to_gds(&library, units()).unwrap();
    assert_eq!(names_of(&stream), vec!["fresh", "deep"]);
    assert_eq!(kinds_of(&stream).iter().filter(|kind| **kind == 0x05).count(), 2);
}

fn label_at(origin: Point, angle: f64, magnification: f64) -> Text {
    Text::new(
        "note".to_string(),
        origin,
        7,
        number(magnification),
        number(angle),
        false,
        VerticalPresentation::Middle,
        HorizontalPresentation::Right,
    )
    .unwrap()
}

#[test]
fn a_reference_to_a_bare_text_is_written_as_its_copies() {
    let text = label_at(Point::new(3, 4), 0.0, 1.0);
    let plain = Reference::new(Instance::Element(Box::new(Element::Text(text.copy()))), None);
    let mut file = vec![1u8];
    assert_eq!(plain._to_gds(&mut file), Ok(()));
    let mut expected = vec![1u8];
    assert_eq!(text._to_gds(&mut expected), Ok(()));
    assert_eq!(file, expected);
    assert_eq!(kinds_of(&file[1..]), vec![0x0C, 0x0D, 0x16, 0x17, 0x10, 0x19, 0x11]);

    let grid = Grid::new(
        Point::new(100, 0),
        2,
        2,
        Point::new(100, 40),
        Point::new(60, 0),
        number(2.0),
        number(90.0),
        false,
    );
    let array = Reference::new(Instance::Element(Box::new(Element::Text(text))), Some(grid));
    let mut file = Vec::new();
    assert_eq!(array._to_gds(&mut file), Ok(()));
    let mut expected = Vec::new();
    for (column, row) in [(0, 0), (0, 1), (1, 0), (1, 1)] {
        let copy = label_at(Point::new(100 - 8 - 20 * row, 6 + 20 * column), 90.0, 2.0);
        assert_eq!(copy._to_gds(&mut expected), Ok(()));
    }
    assert_eq!(file, expected);
    let found = array.expand().unwrap();
    assert_eq!(found.len(), 4);
    assert!(found.iter().all(|element| matches!(element, Element::Text(_))));
}

#[test]
fn a_chain_that_ends_in_a_cell_is_written_as_references_to_the_cell() {
    let inner_grid = Grid::new(
        Point::new(5, 0),
        3,
        1,
        Point::new(35, 0),
        Point::new(5, 0),
        number(1.0),
        number(0.0),
        false,
    );
    let inner = Reference::new(Instance::Cell("leaf".to_string()), Some(inner_grid));
    assert!(matches!(
        inner.expand().as_deref(),
        Some([Element::Reference(found)]) if found.grid == inner_grid
    ));
    let outer_grid = Grid::new(
        Point::new(0, 100),
        1,
        2,
        Point::new(0, 100),
        Point::new(-80, 100),
        number(2.0),
        number(90.0),
        false,
    );
    let outer = Reference::new(
        Instance::Element(Box::new(Element::Reference(inner.copy()))),
        Some(outer_grid),
    );
    let mut file = Vec::new();
    assert_eq!(outer._to_gds(&mut file), Ok(()));
    let mut expected = Vec::new();
    for row in [0, 1] {
        let moved = Grid::new(
            Point::new(-40 * row, 110),
            3,
            1,
            Point::new(-40 * row, 170),
            Point::new(-40 * row, 110),
            number(2.0),
            number(90.0),
            false,
        );
        let copy = Reference::new(Instance::Cell("leaf".to_string()), Some(moved));
        assert_eq!(copy._to_gds(&mut expected), Ok(()));
    }
    assert_eq!(file, expected);
    assert_eq!(kinds_of(&file).iter().filter(|kind| **kind == 0x0B).count(), 2);
    let deeper = Reference::new(Instance::Element(Box::new(Element::Reference(outer))), None);
    let mut again = Vec::new();
    assert_eq!(deeper._to_gds(&mut again), Ok(()));
    assert_eq!(again, expected);
}

#[test]
fn a_library_with_references_to_bare_elements_holds_every_cell_once() {
    let text = label_at(Point::new(0, 0), 0.0, 1.0);
    let mut top = Cell::new("top".to_string());
    top.add(vec![
        Element::Reference(Reference::new(Instance::Cell("leaf".to_string()), None)),
        Element::Reference(Reference::new(Instance::Element(Box::new(Element::Text(text))), None)),
        Element::Reference(Reference::new(
            Instance::Element(Box::new(Element::Reference(Reference::new(
                Instance::Cell("side".to_string()),
                None,
            )))),
            None,
        )),
        Element::Reference(Reference::new(Instance::Cell("leaf".to_string()), None)),
    ]);
    let mut leaf = Cell::new("leaf".to_string());
    leaf.add(vec![Element::Polygon(square(1, 0))]);
    let mut side = Cell::new("side".to_string());
    side.add(vec![Element::Reference(Reference::new(Instance::Cell("leaf".to_string()), None))]);
    let mut library = Library::new("lib".to_string());
    library.add(vec![side, top, leaf], false).unwrap();
    let bytes = write_gds(&library, units(), stamp()).unwrap();
    let kinds = kinds_of(&bytes);
    assert_eq!(kinds.iter().filter(|kind| **kind == 0x05).count(), 3);
    assert_eq!(kinds.iter().filter(|kind| **kind == 0x07).count(), 3);
    assert_eq!(kinds.iter().filter(|kind| **kind == 0x0C).count(), 1);
    assert_eq!(kinds.iter().filter(|kind| **kind == 0x0B).count(), 4);
    assert_eq!(names_of(&bytes), vec!["side", "leaf", "top"]);
    let mut other = Library::new("lib".to_string());
    let mut first = Cell::new("top".to_string());
    first.add(vec![Element::Reference(Reference::new(
        Instance::Element(Box::new(Element::Reference(Reference::new(
            Instance::Cell("side".to_string()),
            None,
        )))),
        None,
    ))]);
    other.add(vec![first, Cell::new("leaf".to_string()), Cell::new("side".to_string())], false).unwrap();
    let bytes = write_gds(&other, units(), stamp()).unwrap();
    assert_eq!(names_of(&bytes), vec!["top", "side", "leaf"]);
    assert_eq!(gdsr::order::cell_order(&other), vec![0, 2, 1]);
}
