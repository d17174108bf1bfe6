use vstd::prelude::*;
use crate::cell::{Cell, CellView};
use crate::config::gds_file_types::{DataView, GDSDataType, GDSRecord};
use crate::element::{Element, ElementView, Instance, InstanceView, Reference, ReferenceView};
use crate::error::WriteError;
use crate::path::{Path, PathView};
use crate::point::Point;
use crate::polygon::{Polygon, PolygonView};
use crate::text::{get_presentation_value, presentation_flags, Text, TextView};
use crate::library::{Library, LibraryView};
use crate::motion::{expansion, has_records};
use crate::order::{cell_order, cells_from, places, reached_from, write_order};
use crate::traits::views;
use crate::utils::clock::current_timestamp;
use crate::utils::io::{head_records, write_gds_head_to_file, write_gds_tail_to_file, Units};
use crate::utils::bytes::{
    be_u32,
    be_words,
    i32s_bytes,
    low_word,
    low_word_of,
    pattern_of,
    push_u32,
    signed16,
    unsigned16,
    unsigned32,
};
use crate::utils::clock::Timestamp;
use crate::utils::io::{
    characters,
    lemma_as_items_one,
    plain,
    short,
    stamps,
    transformation_records,
    write_element_tail_to_file,
    write_plain_record,
    write_points_to_file,
    write_short_record,
    write_stamps,
    write_string_with_record_to_file,
    write_transformation_to_file,
    write_u16_array_to_file,
    xy_records,
};
use crate::utils::stream::{
    appended,
    as_items,
    lemma_outcome_concat,
    lemma_outcome_one,
    outcome,
    record_bytes,
    record_fault,
    Item,
    RecordView,
};
use crate::config::gds_file_types::combine_record_and_data_type;

verus! {

/// The record that holds the width of a path.
pub open spec fn width_record(width: i32) -> RecordView {
    RecordView {
        kind: GDSRecord::Width,
        layout: GDSDataType::FourByteSignedInteger,
        data: DataView::I32(seq![width]),
    }
}

/// The record that holds the numbers of columns and of rows of an array, each cut to
/// its low sixteen bits.
pub open spec fn colrow_record(columns: u32, rows: u32) -> RecordView {
    RecordView {
        kind: GDSRecord::ColRow,
        layout: GDSDataType::TwoByteSignedInteger,
        data: DataView::I16(
            seq![signed16(low_word(columns as int)), signed16(low_word(rows as int))],
        ),
    }
}

/// The records of a polygon: its start, its layer and data type, each cut to its low
/// sixteen bits, its points, and its end.
pub open spec fn polygon_records(polygon: PolygonView) -> Seq<RecordView> {
    seq![
        plain(GDSRecord::Boundary),
        short(GDSRecord::Layer, GDSDataType::TwoByteSignedInteger, low_word(polygon.layer as int)),
        short(
            GDSRecord::DataType,
            GDSDataType::TwoByteSignedInteger,
            low_word(polygon.data_type as int),
        ),
    ] + xy_records(polygon.points) + seq![plain(GDSRecord::EndEl)]
}

/// The records of a path of at least two points: its start, its layer and data type,
/// its end-cap style if it has one, its width if it has one, its points, and its end.
pub open spec fn path_records(path: PathView) -> Seq<RecordView> {
    seq![
        plain(GDSRecord::Path),
        short(GDSRecord::Layer, GDSDataType::TwoByteSignedInteger, low_word(path.layer as int)),
        short(
            GDSRecord::DataType,
            GDSDataType::TwoByteSignedInteger,
            low_word(path.data_type as int),
        ),
    ] + (match path.path_type {
        Some(style) => seq![
            short(
                GDSRecord::PathType,
                GDSDataType::TwoByteSignedInteger,
                low_word(style.code() as int),
            ),
        ],
        None => Seq::<RecordView>::empty(),
    }) + (match path.width {
        Some(width) => seq![width_record(width)],
        None => Seq::<RecordView>::empty(),
    }) + xy_records(path.points) + seq![plain(GDSRecord::EndEl)]
}

/// The records of a text: its start, its layer, a text type of zero, its anchors, its
/// transformation, its origin, its characters, and its end.
pub open spec fn text_records(text: TextView) -> Seq<RecordView> {
    seq![
        plain(GDSRecord::Text),
        short(GDSRecord::Layer, GDSDataType::TwoByteSignedInteger, low_word(text.layer as int)),
        short(GDSRecord::TextType, GDSDataType::TwoByteSignedInteger, 0),
        short(
            GDSRecord::Presentation,
            GDSDataType::BitArray,
            presentation_flags(text.vertical_presentation, text.horizontal_presentation) as u16,
        ),
    ] + transformation_records(text.angle, text.magnification, text.x_reflection) + xy_records(
        seq![text.origin],
    ) + seq![characters(GDSRecord::String, text.text), plain(GDSRecord::EndEl)]
}

/// The records of a reference to the cell `name`: the start of an array, the name, the
/// transformation, the numbers of columns and rows, the three corners of the grid, and
/// the end.
pub open spec fn array_records(name: Seq<char>, reference: ReferenceView) -> Seq<RecordView> {
    seq![plain(GDSRecord::ARef), characters(GDSRecord::SName, name)] + transformation_records(
        reference.grid.angle,
        reference.grid.magnification,
        reference.grid.x_reflection,
    ) + seq![colrow_record(reference.grid.columns, reference.grid.rows)] + xy_records(
        seq![reference.grid.origin, reference.grid.corner_x, reference.grid.corner_y],
    ) + seq![plain(GDSRecord::EndEl)]
}

/// What can be written to a stream: what sets out its records, and writes them.
pub trait ToGds: Sized + View {
    /// The steps of writing it.
    spec fn items(view: Self::V) -> Seq<Item>;

    /// Writes it at the end of `file`. Where a fault is met, `file` is left as it was.
    fn _to_gds(&self, file: &mut Vec<u8>) -> (result: Result<(), WriteError>)
        ensures
            appended(old(file)@, final(file)@, result, Self::items(self@)),
    ;
}

/// What one step of the writer after another has done: the two together have added the
/// bytes of both lists of items.
pub proof fn lemma_appended_twice(
    before: Seq<u8>,
    middle: Seq<u8>,
    after: Seq<u8>,
    first: Seq<Item>,
    second: Seq<Item>,
    result: Result<(), WriteError>,
)
    requires
        appended(before, middle, Ok::<(), WriteError>(()), first),
        appended(middle, after, result, second),
    ensures
        result.is_ok() ==> appended(before, after, result, first + second),
        result matches Err(error) ==> outcome(first + second) == Err::<Seq<u8>, WriteError>(error),
{
    lemma_outcome_concat(first, second);
    if let Ok(bytes) = outcome(first) {
        if let Ok(more) = outcome(second) {
            assert(before + (bytes + more) =~= (before + bytes) + more);
        }
    }
}

/// What a step of the writer that cannot fail has done, given the records it wrote.
pub proof fn lemma_appended_records(before: Seq<u8>, after: Seq<u8>, record: RecordView)
    requires
        after == before + record_bytes(record),
        record_fault(record).is_none(),
    ensures
        appended(before, after, Ok::<(), WriteError>(()), seq![Item::Record(record)]),
        appended(before, after, Ok::<(), WriteError>(()), as_items(seq![record])),
{
    lemma_outcome_one(Item::Record(record));
    lemma_as_items_one(record);
}

impl ToGds for Polygon {
    open spec fn items(view: PolygonView) -> Seq<Item> {
        as_items(polygon_records(view))
    }

    fn _to_gds(&self, file: &mut Vec<u8>) -> (result: Result<(), WriteError>) {
        let ghost start = file@;
        let ghost first = plain(GDSRecord::Boundary);
        let ghost second = short(
            GDSRecord::Layer,
            GDSDataType::TwoByteSignedInteger,
            low_word(self.layer as int),
        );
        let ghost third = short(
            GDSRecord::DataType,
            GDSDataType::TwoByteSignedInteger,
            low_word(self.data_type as int),
        );
        let ghost last = plain(GDSRecord::EndEl);
        write_plain_record(file, GDSRecord::Boundary);
        let ghost one = file@;
        write_short_record(
            file,
            GDSRecord::Layer,
            GDSDataType::TwoByteSignedInteger,
            low_word_of(self.layer),
        );
        let ghost two = file@;
        write_short_record(
            file,
            GDSRecord::DataType,
            GDSDataType::TwoByteSignedInteger,
            low_word_of(self.data_type),
        );
        let ghost three = file@;
        write_points_to_file(file, &self.points);
        let ghost four = file@;
        write_element_tail_to_file(file);
        proof {
            let a = seq![Item::Record(first)];
            let b = seq![Item::Record(second)];
            let c = seq![Item::Record(third)];
            let d = as_items(xy_records(self@.points));
            let e = seq![Item::Record(last)];
            lemma_appended_records(start, one, first);
            lemma_appended_records(one, two, second);
            lemma_appended_records(two, three, third);
            lemma_appended_records(four, file@, last);
            lemma_appended_twice(start, one, two, a, b, Ok(()));
            lemma_appended_twice(start, two, three, a + b, c, Ok(()));
            lemma_appended_twice(start, three, four, a + b + c, d, Ok(()));
            lemma_appended_twice(start, four, file@, a + b + c + d, e, Ok(()));
            assert(Self::items(self@) =~= a + b + c + d + e);
        }
        Ok(())
    }
}


/// A fault met while writing stays the outcome whatever was to follow.
pub proof fn lemma_fault_stays(first: Seq<Item>, rest: Seq<Item>, error: WriteError)
    requires
        outcome(first) == Err::<Seq<u8>, WriteError>(error),
    ensures
        outcome(first + rest) == Err::<Seq<u8>, WriteError>(error),
{
    lemma_outcome_concat(first, rest);
}

/// Nothing written is the outcome of no items.
pub proof fn lemma_appended_nothing(bytes: Seq<u8>)
    ensures
        appended(bytes, bytes, Ok::<(), WriteError>(()), Seq::<Item>::empty()),
{
    assert(bytes + Seq::<u8>::empty() =~= bytes);
}

/// Writes the record that holds the width of a path.
#[verifier::spinoff_prover]
fn write_width_record(file: &mut Vec<u8>, width: i32)
    ensures
        appended(
            old(file)@,
            final(file)@,
            Ok::<(), WriteError>(()),
            seq![Item::Record(width_record(width))],
        ),
{
    let words: [u16; 2] = [
        8,
        combine_record_and_data_type(GDSRecord::Width, GDSDataType::FourByteSignedInteger),
    ];
    write_u16_array_to_file(file, &words);
    push_u32(file, pattern_of(width));
    proof {
        let record = width_record(width);
        assert(i32s_bytes(seq![width]) =~= be_u32(unsigned32(width)));
        assert(be_words(words@) + be_u32(unsigned32(width)) =~= record_bytes(record));
        assert(file@ =~= old(file)@ + record_bytes(record));
        lemma_appended_records(old(file)@, file@, record);
    }
}

/// Writes the record that holds the numbers of columns and of rows of an array.
#[verifier::spinoff_prover]
fn write_colrow_record(file: &mut Vec<u8>, columns: u32, rows: u32)
    ensures
        appended(
            old(file)@,
            final(file)@,
            Ok::<(), WriteError>(()),
            seq![Item::Record(colrow_record(columns, rows))],
        ),
{
    let low_columns: u16 = (columns % 0x1_0000) as u16;
    let low_rows: u16 = (rows % 0x1_0000) as u16;
    let words: [u16; 4] = [
        8,
        combine_record_and_data_type(GDSRecord::ColRow, GDSDataType::TwoByteSignedInteger),
        low_columns,
        low_rows,
    ];
    write_u16_array_to_file(file, &words);
    proof {
        let record = colrow_record(columns, rows);
        assert(unsigned16(signed16(low_columns)) == low_columns);
        assert(unsigned16(signed16(low_rows)) == low_rows);
        assert(be_words(words@) =~= record_bytes(record));
        lemma_appended_records(old(file)@, file@, record);
    }
}

impl ToGds for Path {
    open spec fn items(view: PathView) -> Seq<Item> {
        if view.points.len() < 2 {
            seq![Item::Fault(WriteError::PathTooShort)]
        } else {
            as_items(path_records(view))
        }
    }

    fn _to_gds(&self, file: &mut Vec<u8>) -> (result: Result<(), WriteError>) {
        if self.points.len() < 2 {
            proof {
                lemma_outcome_one(Item::Fault(WriteError::PathTooShort));
            }
            return Err(WriteError::PathTooShort);
        }
        let ghost start = file@;
        let ghost first = plain(GDSRecord::Path);
        let ghost second = short(
            GDSRecord::Layer,
            GDSDataType::TwoByteSignedInteger,
            low_word(self.layer as int),
        );
        let ghost third = short(
            GDSRecord::DataType,
            GDSDataType::TwoByteSignedInteger,
            low_word(self.data_type as int),
        );
        let ghost ends = match self.path_type {
            Some(style) => seq![
                short(
                    GDSRecord::PathType,
                    GDSDataType::TwoByteSignedInteger,
                    low_word(style.code() as int),
                ),
            ],
            None => Seq::<RecordView>::empty(),
        };
        let ghost breadth = match self.width {
            Some(width) => seq![width_record(width)],
            None => Seq::<RecordView>::empty(),
        };
        let ghost last = plain(GDSRecord::EndEl);
        write_plain_record(file, GDSRecord::Path);
        let ghost one = file@;
        write_short_record(
            file,
            GDSRecord::Layer,
            GDSDataType::TwoByteSignedInteger,
            low_word_of(self.layer),
        );
        let ghost two = file@;
        write_short_record(
            file,
            GDSRecord::DataType,
            GDSDataType::TwoByteSignedInteger,
            low_word_of(self.data_type),
        );
        let ghost three = file@;
        match self.path_type {
            Some(style) => {
                write_short_record(
                    file,
                    GDSRecord::PathType,
                    GDSDataType::TwoByteSignedInteger,
                    low_word_of(style.value()),
                );
                proof {
                    lemma_appended_records(three, file@, ends[0]);
                }
            },
            None => {
                proof {
                    lemma_appended_nothing(three);
                    assert(as_items(ends) =~= Seq::<Item>::empty());
                }
            },
        }
        let ghost four = file@;
        match self.width {
            Some(width) => {
                write_width_record(file, width);
                proof {
                    lemma_as_items_one(width_record(width));
                }
            },
            None => {
                proof {
                    lemma_appended_nothing(four);
                    assert(as_items(breadth) =~= Seq::<Item>::empty());
                }
            },
        }
        let ghost five = file@;
        write_points_to_file(file, &self.points);
        let ghost six = file@;
        write_element_tail_to_file(file);
        proof {
            let a = seq![Item::Record(first)];
            let b = seq![Item::Record(second)];
            let c = seq![Item::Record(third)];
            let d = as_items(ends);
            let e = as_items(breadth);
            let f = as_items(xy_records(self@.points));
            let g = seq![Item::Record(last)];
            lemma_appended_records(start, one, first);
            lemma_appended_records(one, two, second);
            lemma_appended_records(two, three, third);
            lemma_appended_records(six, file@, last);
            lemma_appended_twice(start, one, two, a, b, Ok(()));
            lemma_appended_twice(start, two, three, a + b, c, Ok(()));
            lemma_appended_twice(start, three, four, a + b + c, d, Ok(()));
            lemma_appended_twice(start, four, five, a + b + c + d, e, Ok(()));
            lemma_appended_twice(start, five, six, a + b + c + d + e, f, Ok(()));
            lemma_appended_twice(start, six, file@, a + b + c + d + e + f, g, Ok(()));
            assert(Self::items(self@) =~= a + b + c + d + e + f + g);
        }
        Ok(())
    }
}

impl ToGds for Text {
    open spec fn items(view: TextView) -> Seq<Item> {
        as_items(text_records(view))
    }

    fn _to_gds(&self, file: &mut Vec<u8>) -> (result: Result<(), WriteError>) {
        let length = file.len();
        let ghost start = file@;
        let flags = get_presentation_value(self.vertical_presentation, self.horizontal_presentation);
        let ghost first = plain(GDSRecord::Text);
        let ghost second = short(
            GDSRecord::Layer,
            GDSDataType::TwoByteSignedInteger,
            low_word(self.layer as int),
        );
        let ghost third = short(GDSRecord::TextType, GDSDataType::TwoByteSignedInteger, 0);
        let ghost fourth = short(GDSRecord::Presentation, GDSDataType::BitArray, flags);
        let ghost label = characters(GDSRecord::String, self.text@);
        let ghost last = plain(GDSRecord::EndEl);
        let ghost a = seq![Item::Record(first)];
        let ghost b = seq![Item::Record(second)];
        let ghost c = seq![Item::Record(third)];
        let ghost d = seq![Item::Record(fourth)];
        let ghost e = as_items(
            transformation_records(self.angle, self.magnification, self.x_reflection),
        );
        let ghost f = as_items(xy_records(seq![self.origin]));
        let ghost g = seq![Item::Record(label)];
        let ghost h = seq![Item::Record(last)];
        proof {
            assert(Self::items(self@) =~= a + b + c + d + e + f + g + h);
        }
        write_plain_record(file, GDSRecord::Text);
        let ghost one = file@;
        write_short_record(
            file,
            GDSRecord::Layer,
            GDSDataType::TwoByteSignedInteger,
            low_word_of(self.layer),
        );
        let ghost two = file@;
        write_short_record(file, GDSRecord::TextType, GDSDataType::TwoByteSignedInteger, 0);
        let ghost three = file@;
        write_short_record(file, GDSRecord::Presentation, GDSDataType::BitArray, flags);
        let ghost four = file@;
        proof {
            lemma_appended_records(start, one, first);
            lemma_appended_records(one, two, second);
            lemma_appended_records(two, three, third);
            lemma_appended_records(three, four, fourth);
            lemma_appended_twice(start, one, two, a, b, Ok(()));
            lemma_appended_twice(start, two, three, a + b, c, Ok(()));
            lemma_appended_twice(start, three, four, a + b + c, d, Ok(()));
        }
        let turned = write_transformation_to_file(
            file,
            self.angle,
            self.magnification,
            self.x_reflection,
        );
        proof {
            lemma_appended_twice(start, four, file@, a + b + c + d, e, turned);
        }
        match turned {
            Err(error) => {
                proof {
                    lemma_fault_stays(a + b + c + d + e, f + g + h, error);
                    assert(a + b + c + d + e + (f + g + h) =~= a + b + c + d + e + f + g + h);
                }
                file.truncate(length);
                assert(file@ =~= start);
                return Err(error);
            },
            Ok(_) => {},
        }
        let ghost five = file@;
        let mut origin: Vec<Point> = Vec::new();
        origin.push(self.origin);
        assert(origin@ =~= seq![self.origin]);
        write_points_to_file(file, &origin);
        let ghost six = file@;
        proof {
            lemma_appended_twice(start, five, six, a + b + c + d + e, f, Ok(()));
        }
        let named = write_string_with_record_to_file(file, GDSRecord::String, self.text.as_str());
        proof {
            lemma_appended_twice(start, six, file@, a + b + c + d + e + f, g, named);
        }
        match named {
            Err(error) => {
                proof {
                    lemma_fault_stays(a + b + c + d + e + f + g, h, error);
                }
                file.truncate(length);
                assert(file@ =~= start);
                return Err(error);
            },
            Ok(_) => {},
        }
        let ghost seven = file@;
        write_element_tail_to_file(file);
        proof {
            lemma_appended_records(seven, file@, last);
            lemma_appended_twice(start, seven, file@, a + b + c + d + e + f + g, h, Ok(()));
        }
        Ok(())
    }
}

/// The steps of writing an element that a reference stands for: a polygon, a path or a
/// text as it is written anywhere, a reference to a cell as an array of instances of
/// that cell. A stream has no record for a reference to a bare element.
pub open spec fn shape_items(element: ElementView) -> Seq<Item> {
    match element {
        ElementView::Polygon(polygon) => Polygon::items(polygon),
        ElementView::Path(path) => Path::items(path),
        ElementView::Text(text) => Text::items(text),
        ElementView::Reference(reference) => match reference.instance {
            InstanceView::Cell(name) => as_items(array_records(name, reference)),
            InstanceView::Element(_) => seq![Item::Fault(WriteError::ElementReference)],
        },
    }
}

/// The steps of writing the elements of a list that references stand for, in order.
pub open spec fn shapes_items(list: Seq<ElementView>) -> Seq<Item>
    decreases list.len(),
{
    if list.len() == 0 {
        Seq::empty()
    } else {
        shapes_items(list.drop_last()) + shape_items(list.last())
    }
}

/// A fault met in the first shapes of a list is the outcome of writing the whole list.
pub proof fn lemma_shapes_fault(list: Seq<ElementView>, count: int, error: WriteError)
    requires
        0 <= count <= list.len(),
        outcome(shapes_items(list.take(count))) == Err::<Seq<u8>, WriteError>(error),
    ensures
        outcome(shapes_items(list)) == Err::<Seq<u8>, WriteError>(error),
    decreases list.len() - count,
{
    if count == list.len() {
        assert(list.take(count) =~= list);
    } else {
        let next = list.take(count + 1);
        assert(next.drop_last() =~= list.take(count));
        lemma_fault_stays(shapes_items(list.take(count)), shape_items(next.last()), error);
        lemma_shapes_fault(list, count + 1, error);
    }
}

/// Writes the elements of a list that references stand for, in order. Where a fault is
/// met, `file` is left as it was.
fn write_shapes(file: &mut Vec<u8>, list: &Vec<Element>) -> (result: Result<(), WriteError>)
    ensures
        appended(old(file)@, final(file)@, result, shapes_items(views(list@))),
{
    let length = file.len();
    let ghost start = file@;
    let ghost all = views(list@);
    let mut index: usize = 0;
    proof {
        assert(all.take(0) =~= Seq::<ElementView>::empty());
        lemma_appended_nothing(start);
    }
    while index < list.len()
        invariant
            index <= list.len(),
            all == views(list@),
            length == start.len(),
            start == old(file)@,
            appended(start, file@, Ok::<(), WriteError>(()), shapes_items(all.take(index as int))),
        decreases list.len() - index,
    {
        let ghost before = file@;
        let ghost done = shapes_items(all.take(index as int));
        let ghost next = shape_items(list@[index as int]@);
        let written = match &list[index] {
            Element::Polygon(polygon) => polygon._to_gds(file),
            Element::Path(path) => path._to_gds(file),
            Element::Text(text) => text._to_gds(file),
            Element::Reference(reference) => match &reference.instance {
                Instance::Cell(name) => reference._to_gds_with_cell(file, name.as_str()),
                Instance::Element(_) => {
                    proof {
                        lemma_outcome_one(Item::Fault(WriteError::ElementReference));
                    }
                    Err(WriteError::ElementReference)
                },
            },
        };
        proof {
            let longer = all.take(index + 1);
            assert(longer.drop_last() =~= all.take(index as int));
            assert(longer.last() == list@[index as int]@);
            assert(shapes_items(longer) == done + next);
            lemma_appended_twice(start, before, file@, done, next, written);
        }
        match written {
            Err(error) => {
                proof {
                    lemma_shapes_fault(all, index + 1, error);
                }
                file.truncate(length);
                assert(file@ =~= start);
                return Err(error);
            },
            Ok(_) => {},
        }
        index = index + 1;
    }
    proof {
        assert(all.take(list.len() as int) =~= all);
    }
    Ok(())
}

impl ToGds for Reference {
    open spec fn items(view: ReferenceView) -> Seq<Item> {
        match view.instance {
            InstanceView::Cell(name) => as_items(array_records(name, view)),
            InstanceView::Element(_) => match expansion(view) {
                Some(shapes) => shapes_items(shapes),
                None => seq![Item::Fault(WriteError::ElementReference)],
            },
        }
    }

    fn _to_gds(&self, file: &mut Vec<u8>) -> (result: Result<(), WriteError>) {
        match &self.instance {
            Instance::Element(_) => self._to_gds_with_element(file),
            Instance::Cell(name) => self._to_gds_with_cell(file, name.as_str()),
        }
    }
}

/// Whether none of the items is the fault of a reference that cannot be expanded.
pub open spec fn expandable(items: Seq<Item>) -> bool {
    forall|i: int|
        0 <= i < items.len() ==> (#[trigger] items[i]) != Item::Fault(WriteError::ElementReference)
}

/// Items none of which is the fault of a reference that cannot be expanded are not
/// refused with that fault: no record is.
pub proof fn lemma_expandable(items: Seq<Item>)
    requires
        expandable(items),
    ensures
        outcome(items) != Err::<Seq<u8>, WriteError>(WriteError::ElementReference),
    decreases items.len(),
{
    if items.len() > 0 {
        assert forall|i: int| 0 <= i < items.drop_last().len() implies (
        #[trigger] items.drop_last()[i]) != Item::Fault(WriteError::ElementReference) by {
            assert(items.drop_last()[i] == items[i]);
        }
        lemma_expandable(items.drop_last());
        assert(items[items.len() - 1] != Item::Fault(WriteError::ElementReference));
    }
}

/// The steps of writing elements of kinds that a stream has records for hold no fault
/// of a reference that cannot be expanded.
pub proof fn lemma_shapes_expandable(list: Seq<ElementView>)
    requires
        forall|i: int| 0 <= i < list.len() ==> has_records(#[trigger] list[i]),
    ensures
        expandable(shapes_items(list)),
    decreases list.len(),
{
    if list.len() > 0 {
        assert forall|i: int| 0 <= i < list.drop_last().len() implies has_records(
            #[trigger] list.drop_last()[i],
        ) by {
            assert(list.drop_last()[i] == list[i]);
        }
        lemma_shapes_expandable(list.drop_last());
        assert(has_records(list[list.len() - 1]));
        let before = shapes_items(list.drop_last());
        let last = shape_items(list.last());
        assert(expandable(last));
        assert forall|i: int| 0 <= i < (before + last).len() implies (#[trigger] (before + last)[i])
            != Item::Fault(WriteError::ElementReference) by {
            if i < before.len() {
                assert((before + last)[i] == before[i]);
            } else {
                assert((before + last)[i] == last[i - before.len()]);
            }
        }
    }
}

/// A reference is refused as one that cannot be expanded only where it places a bare
/// element and one of its copies cannot be made in whole database units and without
/// rounding: references to texts, and chains that end in a cell, are written like any
/// other.
pub proof fn lemma_refused_reference(reference: ReferenceView)
    requires
        outcome(Reference::items(reference)) == Err::<Seq<u8>, WriteError>(
            WriteError::ElementReference,
        ),
    ensures
        reference.instance is Element,
        expansion(reference) is None,
{
    match reference.instance {
        InstanceView::Cell(name) => {
            lemma_expandable(as_items(array_records(name, reference)));
        },
        InstanceView::Element(_) => {
            if expansion(reference) is Some {
                crate::motion::lemma_chain_records(reference);
                crate::motion::lemma_resolved_records(crate::motion::chain_copies(reference));
                lemma_shapes_expandable(expansion(reference)->Some_0);
                lemma_expandable(shapes_items(expansion(reference)->Some_0));
            }
        },
    }
}

impl Reference {
    /// Writes a reference to a bare element as what it stands for, one element after the
    /// other: a stream has no record for such a reference. The polygons, paths and texts
    /// that it places are written where their copies put them, and where its chain ends
    /// in a reference to a cell, that reference is written once for every copy. Where a
    /// copy cannot be made in whole database units and without rounding, nothing is
    /// written.
    pub fn _to_gds_with_element(&self, file: &mut Vec<u8>) -> (result: Result<(), WriteError>)
        ensures
            appended(
                old(file)@,
                final(file)@,
                result,
                match expansion(self@) {
                    Some(shapes) => shapes_items(shapes),
                    None => seq![Item::Fault(WriteError::ElementReference)],
                },
            ),
    {
        match self.expand() {
            Some(shapes) => write_shapes(file, &shapes),
            None => {
                proof {
                    lemma_outcome_one(Item::Fault(WriteError::ElementReference));
                }
                Err(WriteError::ElementReference)
            },
        }
    }

    /// Writes the reference as an array of instances of the cell `cell_name`.
    pub fn _to_gds_with_cell(&self, file: &mut Vec<u8>, cell_name: &str) -> (result: Result<
        (),
        WriteError,
    >)
        ensures
            appended(old(file)@, final(file)@, result, as_items(array_records(cell_name@, self@))),
    {
        let length = file.len();
        let ghost start = file@;
        let grid = self.grid;
        let ghost first = plain(GDSRecord::ARef);
        let ghost second = characters(GDSRecord::SName, cell_name@);
        let ghost counts = colrow_record(grid.columns, grid.rows);
        let ghost last = plain(GDSRecord::EndEl);
        let ghost a = seq![Item::Record(first)];
        let ghost b = seq![Item::Record(second)];
        let ghost c = as_items(
            transformation_records(grid.angle, grid.magnification, grid.x_reflection),
        );
        let ghost d = seq![Item::Record(counts)];
        let ghost e = as_items(xy_records(seq![grid.origin, grid.corner_x, grid.corner_y]));
        let ghost f = seq![Item::Record(last)];
        proof {
            assert(as_items(array_records(cell_name@, self@)) =~= a + b + c + d + e + f);
        }
        write_plain_record(file, GDSRecord::ARef);
        let ghost one = file@;
        proof {
            lemma_appended_records(start, one, first);
        }
        let named = write_string_with_record_to_file(file, GDSRecord::SName, cell_name);
        proof {
            lemma_appended_twice(start, one, file@, a, b, named);
        }
        match named {
            Err(error) => {
                proof {
                    lemma_fault_stays(a + b, c + d + e + f, error);
                    assert(a + b + (c + d + e + f) =~= a + b + c + d + e + f);
                }
                file.truncate(length);
                assert(file@ =~= start);
                return Err(error);
            },
            Ok(_) => {},
        }
        let ghost two = file@;
        let turned = write_transformation_to_file(
            file,
            grid.angle,
            grid.magnification,
            grid.x_reflection,
        );
        proof {
            lemma_appended_twice(start, two, file@, a + b, c, turned);
        }
        match turned {
            Err(error) => {
                proof {
                    lemma_fault_stays(a + b + c, d + e + f, error);
                    assert(a + b + c + (d + e + f) =~= a + b + c + d + e + f);
                }
                file.truncate(length);
                assert(file@ =~= start);
                return Err(error);
            },
            Ok(_) => {},
        }
        let ghost three = file@;
        write_colrow_record(file, grid.columns, grid.rows);
        let ghost four = file@;
        let mut corners: Vec<Point> = Vec::new();
        corners.push(grid.origin);
        corners.push(grid.corner_x);
        corners.push(grid.corner_y);
        assert(corners@ =~= seq![grid.origin, grid.corner_x, grid.corner_y]);
        write_points_to_file(file, &corners);
        let ghost five = file@;
        write_element_tail_to_file(file);
        proof {
            lemma_appended_records(five, file@, last);
            lemma_appended_twice(start, three, four, a + b + c, d, Ok(()));
            lemma_appended_twice(start, four, five, a + b + c + d, e, Ok(()));
            lemma_appended_twice(start, five, file@, a + b + c + d + e, f, Ok(()));
        }
        Ok(())
    }
}

/// The steps of writing an element.
pub open spec fn element_items(element: ElementView) -> Seq<Item> {
    match element {
        ElementView::Path(path) => Path::items(path),
        ElementView::Polygon(polygon) => Polygon::items(polygon),
        ElementView::Reference(reference) => Reference::items(reference),
        ElementView::Text(text) => Text::items(text),
    }
}

impl ToGds for Element {
    open spec fn items(view: ElementView) -> Seq<Item> {
        element_items(view)
    }

    fn _to_gds(&self, file: &mut Vec<u8>) -> (result: Result<(), WriteError>) {
        match self {
            Element::Path(path) => path._to_gds(file),
            Element::Polygon(polygon) => polygon._to_gds(file),
            Element::Reference(reference) => reference._to_gds(file),
            Element::Text(text) => text._to_gds(file),
        }
    }
}

/// The steps of writing every item of a list, in order.
pub open spec fn gathered<T: ToGds>(list: Seq<T::V>) -> Seq<Item>
    decreases list.len(),
{
    if list.len() == 0 {
        Seq::empty()
    } else {
        gathered::<T>(list.drop_last()) + T::items(list.last())
    }
}

/// Writes every item of the list, in order. Where a fault is met, `file` is left as it
/// was.
pub fn write_all<T: ToGds>(file: &mut Vec<u8>, list: &Vec<T>) -> (result: Result<(), WriteError>)
    ensures
        appended(old(file)@, final(file)@, result, gathered::<T>(views(list@))),
{
    let length = file.len();
    let ghost start = file@;
    let ghost all = views(list@);
    let mut index: usize = 0;
    proof {
        assert(all.take(0) =~= Seq::<T::V>::empty());
        lemma_appended_nothing(start);
    }
    while index < list.len()
        invariant
            index <= list.len(),
            all == views(list@),
            length == start.len(),
            start == old(file)@,
            appended(start, file@, Ok::<(), WriteError>(()), gathered::<T>(all.take(index as int))),
        decreases list.len() - index,
    {
        let ghost before = file@;
        let ghost done = gathered::<T>(all.take(index as int));
        let written = list[index]._to_gds(file);
        proof {
            let next = all.take(index + 1);
            assert(next.drop_last() =~= all.take(index as int));
            assert(next.last() == list@[index as int]@);
            assert(gathered::<T>(next) == done + T::items(list@[index as int]@));
            lemma_appended_twice(start, before, file@, done, T::items(list@[index as int]@), written);
        }
        match written {
            Err(error) => {
                proof {
                    lemma_gathered_fault::<T>(all, index + 1, error);
                }
                file.truncate(length);
                assert(file@ =~= start);
                return Err(error);
            },
            Ok(_) => {},
        }
        index = index + 1;
    }
    proof {
        assert(all.take(list.len() as int) =~= all);
    }
    Ok(())
}

/// A fault met in the first items of a list is the outcome of writing the whole list.
pub proof fn lemma_gathered_fault<T: ToGds>(list: Seq<T::V>, count: int, error: WriteError)
    requires
        0 <= count <= list.len(),
        outcome(gathered::<T>(list.take(count))) == Err::<Seq<u8>, WriteError>(error),
    ensures
        outcome(gathered::<T>(list)) == Err::<Seq<u8>, WriteError>(error),
    decreases list.len() - count,
{
    if count == list.len() {
        assert(list.take(count) =~= list);
    } else {
        let next = list.take(count + 1);
        assert(next.drop_last() =~= list.take(count));
        lemma_fault_stays(gathered::<T>(list.take(count)), T::items(next.last()), error);
        lemma_gathered_fault::<T>(list, count + 1, error);
    }
}

/// The steps of writing a cell: the start of a structure with its timestamps, the name,
/// the paths, the polygons, the texts, the references, and the end of the structure.
pub open spec fn cell_items(cell: CellView, timestamp: Timestamp) -> Seq<Item> {
    as_items(seq![stamps(GDSRecord::BgnStr, timestamp), characters(GDSRecord::StrName, cell.name)])
        + gathered::<Path>(cell.paths) + gathered::<Polygon>(cell.polygons) + gathered::<Text>(
        cell.texts,
    ) + gathered::<Reference>(cell.references) + seq![Item::Record(plain(GDSRecord::EndStr))]
}

impl Cell {
    /// Writes the cell as one structure at the end of `file`, with `timestamp` as the
    /// moment of its last change. The cells that its references name are not written with
    /// it: `write_gds` and `write_gds_from` write them, each once. Where a fault is met,
    /// `file` is left as it was.
    pub fn _to_gds(&self, file: &mut Vec<u8>, timestamp: Timestamp) -> (result: Result<
        (),
        WriteError,
    >)
        ensures
            appended(old(file)@, final(file)@, result, cell_items(self@, timestamp)),
    {
        let length = file.len();
        let ghost start = file@;
        let ghost first = stamps(GDSRecord::BgnStr, timestamp);
        let ghost second = characters(GDSRecord::StrName, self.name@);
        let ghost last = plain(GDSRecord::EndStr);
        let ghost a = seq![Item::Record(first)];
        let ghost b = seq![Item::Record(second)];
        let ghost c = gathered::<Path>(self@.paths);
        let ghost d = gathered::<Polygon>(self@.polygons);
        let ghost e = gathered::<Text>(self@.texts);
        let ghost f = gathered::<Reference>(self@.references);
        let ghost g = seq![Item::Record(last)];
        proof {
            assert(as_items(seq![first, second]) =~= a + b);
            assert(cell_items(self@, timestamp) =~= a + b + c + d + e + f + g);
        }
        write_stamps(file, GDSRecord::BgnStr, timestamp);
        let ghost one = file@;
        proof {
            lemma_appended_records(start, one, first);
        }
        let named = write_string_with_record_to_file(file, GDSRecord::StrName, self.name.as_str());
        proof {
            lemma_appended_twice(start, one, file@, a, b, named);
        }
        match named {
            Err(error) => {
                proof {
                    lemma_fault_stays(a + b, c + d + e + f + g, error);
                    assert(a + b + (c + d + e + f + g) =~= a + b + c + d + e + f + g);
                }
                file.truncate(length);
                assert(file@ =~= start);
                return Err(error);
            },
            Ok(_) => {},
        }
        let ghost two = file@;
        let paths = write_all(file, &self.paths);
        proof {
            lemma_appended_twice(start, two, file@, a + b, c, paths);
        }
        match paths {
            Err(error) => {
                proof {
                    lemma_fault_stays(a + b + c, d + e + f + g, error);
                    assert(a + b + c + (d + e + f + g) =~= a + b + c + d + e + f + g);
                }
                file.truncate(length);
                assert(file@ =~= start);
                return Err(error);
            },
            Ok(_) => {},
        }
        let ghost three = file@;
        let polygons = write_all(file, &self.polygons);
        proof {
            lemma_appended_twice(start, three, file@, a + b + c, d, polygons);
        }
        match polygons {
            Err(error) => {
                proof {
                    lemma_fault_stays(a + b + c + d, e + f + g, error);
                    assert(a + b + c + d + (e + f + g) =~= a + b + c + d + e + f + g);
                }
                file.truncate(length);
                assert(file@ =~= start);
                return Err(error);
            },
            Ok(_) => {},
        }
        let ghost four = file@;
        let texts = write_all(file, &self.texts);
        proof {
            lemma_appended_twice(start, four, file@, a + b + c + d, e, texts);
        }
        match texts {
            Err(error) => {
                proof {
                    lemma_fault_stays(a + b + c + d + e, f + g, error);
                    assert(a + b + c + d + e + (f + g) =~= a + b + c + d + e + f + g);
                }
                file.truncate(length);
                assert(file@ =~= start);
                return Err(error);
            },
            Ok(_) => {},
        }
        let ghost five = file@;
        let references = write_all(file, &self.references);
        proof {
            lemma_appended_twice(start, five, file@, a + b + c + d + e, f, references);
        }
        match references {
            Err(error) => {
                proof {
                    lemma_fault_stays(a + b + c + d + e + f, g, error);
                }
                file.truncate(length);
                assert(file@ =~= start);
                return Err(error);
            },
            Ok(_) => {},
        }
        let ghost six = file@;
        write_plain_record(file, GDSRecord::EndStr);
        proof {
            lemma_appended_records(six, file@, last);
            lemma_appended_twice(start, six, file@, a + b + c + d + e + f, g, Ok(()));
        }
        Ok(())
    }
}


/// The steps of writing the cells at the given places, in the order of the places.
pub open spec fn cells_items(cells: Seq<CellView>, order: Seq<int>, timestamp: Timestamp) -> Seq<
    Item,
>
    decreases order.len(),
{
    if order.len() == 0 {
        Seq::empty()
    } else {
        cells_items(cells, order.drop_last(), timestamp) + cell_items(
            cells[order.last()],
            timestamp,
        )
    }
}

/// The steps of writing a stream that holds the cells of a library at the given places:
/// the records that open the stream, the cells in the order of the places, and the
/// record that ends the stream.
pub open spec fn stream_items(
    library: LibraryView,
    order: Seq<int>,
    units: Units,
    timestamp: Timestamp,
) -> Seq<Item> {
    as_items(head_records(library.name, units, timestamp)) + cells_items(
        library.cells,
        order,
        timestamp,
    ) + seq![Item::Record(plain(GDSRecord::EndLib))]
}

/// The steps of writing a library: the records that open the stream, every cell once,
/// in the order of writing, and the record that ends the stream.
pub open spec fn library_items(library: LibraryView, units: Units, timestamp: Timestamp) -> Seq<
    Item,
> {
    stream_items(library, write_order(library.cells), units, timestamp)
}

/// Whether `result` is what writing the items gives: their bytes, or their first fault.
pub open spec fn written(result: Result<Vec<u8>, WriteError>, items: Seq<Item>) -> bool {
    match outcome(items) {
        Ok(bytes) => result matches Ok(file) && file@ == bytes,
        Err(error) => result matches Err(fault) && fault == error,
    }
}

/// A fault met in the first cells is the outcome of writing all of them.
pub proof fn lemma_cells_fault(
    cells: Seq<CellView>,
    order: Seq<int>,
    timestamp: Timestamp,
    count: int,
    error: WriteError,
)
    requires
        0 <= count <= order.len(),
        outcome(cells_items(cells, order.take(count), timestamp)) == Err::<Seq<u8>, WriteError>(
            error,
        ),
    ensures
        outcome(cells_items(cells, order, timestamp)) == Err::<Seq<u8>, WriteError>(error),
    decreases order.len() - count,
{
    if count == order.len() {
        assert(order.take(count) =~= order);
    } else {
        let next = order.take(count + 1);
        assert(next.drop_last() =~= order.take(count));
        lemma_fault_stays(
            cells_items(cells, order.take(count), timestamp),
            cell_items(cells[next.last()], timestamp),
            error,
        );
        lemma_cells_fault(cells, order, timestamp, count + 1, error);
    }
}

/// Writes as one stream the cells of the library at the given places, in the order of
/// the places.
fn write_in_order(library: &Library, order: &Vec<usize>, units: Units, timestamp: Timestamp) -> (result:
    Result<Vec<u8>, WriteError>)
    requires
        forall|k: int| 0 <= k < order@.len() ==> (#[trigger] order@[k]) < library@.cells.len(),
    ensures
        written(result, stream_items(library@, places(order@), units, timestamp)),
{
    let mut file: Vec<u8> = Vec::new();
    let ghost cells = library@.cells;
    let ghost a = as_items(head_records(library@.name, units, timestamp));
    let ghost order_spec = places(order@);
    let ghost b = cells_items(cells, order_spec, timestamp);
    let ghost c = seq![Item::Record(plain(GDSRecord::EndLib))];
    let head = write_gds_head_to_file(&mut file, library.name.as_str(), units, timestamp);
    match head {
        Err(error) => {
            proof {
                lemma_fault_stays(a, b + c, error);
                assert(a + (b + c) =~= a + b + c);
            }
            return Err(error);
        },
        Ok(_) => {},
    }
    let ghost one = file@;
    let mut index: usize = 0;
    proof {
        assert(order_spec.take(0) =~= Seq::<int>::empty());
        lemma_appended_nothing(one);
    }
    while index < order.len()
        invariant
            index <= order.len(),
            cells == library@.cells,
            order_spec == places(order@),
            a == as_items(head_records(library@.name, units, timestamp)),
            b == cells_items(cells, order_spec, timestamp),
            c == seq![Item::Record(plain(GDSRecord::EndLib))],
            forall|k: int| 0 <= k < order@.len() ==> (#[trigger] order@[k]) < library.cells.len(),
            appended(
                one,
                file@,
                Ok::<(), WriteError>(()),
                cells_items(cells, order_spec.take(index as int), timestamp),
            ),
            appended(Seq::<u8>::empty(), one, Ok::<(), WriteError>(()), a),
        decreases order.len() - index,
    {
        let place = order[index];
        let ghost before = file@;
        let ghost done = cells_items(cells, order_spec.take(index as int), timestamp);
        let one_cell = library.cells[place]._to_gds(&mut file, timestamp);
        proof {
            let next = order_spec.take(index + 1);
            assert(next.drop_last() =~= order_spec.take(index as int));
            assert(next.last() == place);
            assert(cells[place as int] == library.cells@[place as int]@);
            assert(cells_items(cells, next, timestamp) == done + cell_items(
                cells[place as int],
                timestamp,
            ));
            lemma_appended_twice(
                one,
                before,
                file@,
                done,
                cell_items(cells[place as int], timestamp),
                one_cell,
            );
        }
        match one_cell {
            Err(error) => {
                proof {
                    lemma_cells_fault(cells, order_spec, timestamp, index + 1, error);
                    lemma_outcome_concat(a, b);
                    lemma_fault_stays(a + b, c, error);
                }
                return Err(error);
            },
            Ok(_) => {},
        }
        index = index + 1;
    }
    let ghost two = file@;
    write_gds_tail_to_file(&mut file);
    proof {
        assert(order_spec.take(order.len() as int) =~= order_spec);
        lemma_appended_records(two, file@, plain(GDSRecord::EndLib));
        lemma_appended_twice(Seq::<u8>::empty(), one, two, a, b, Ok(()));
        lemma_appended_twice(Seq::<u8>::empty(), two, file@, a + b, c, Ok(()));
        if let Ok(bytes) = outcome(a + b + c) {
            assert(Seq::<u8>::empty() + bytes =~= bytes);
        }
    }
    Ok(file)
}

/// Writes a library as a stream, with `timestamp` as the moment of the last change of the
/// library and of each cell. Every cell of the library is written once, whatever refers to
/// it. A reference to a cell that the library does not hold is written like any other;
/// the stream then names a cell that it does not define.
pub fn write_gds(library: &Library, units: Units, timestamp: Timestamp) -> (result: Result<
    Vec<u8>,
    WriteError,
>)
    ensures
        written(result, library_items(library@, units, timestamp)),
{
    let order = cell_order(library);
    write_in_order(library, &order, units, timestamp)
}

/// Writes as a stream the cell at `top` of the library and the cells that are reached
/// from it through references, each once, in the order of writing; the other cells of
/// the library are left out.
pub fn write_gds_from(library: &Library, top: usize, units: Units, timestamp: Timestamp) -> (result:
    Result<Vec<u8>, WriteError>)
    ensures
        written(
            result,
            stream_items(library@, reached_from(library@.cells, top as int), units, timestamp),
        ),
{
    let order = cells_from(library, top);
    write_in_order(library, &order, units, timestamp)
}

impl Library {
    /// Writes the library as a stream, with the present moment as the moment of the last
    /// change of the library and of each cell.
    pub fn to_gds(&self, units: Units) -> (result: Result<Vec<u8>, WriteError>)
        ensures
            exists|timestamp: Timestamp|
                timestamp.plausible() && written(
                    result,
                    #[trigger] library_items(self@, units, timestamp),
                ),
    {
        let timestamp = current_timestamp();
        let result = write_gds(self, units, timestamp);
        assert(written(result, library_items(self@, units, timestamp)));
        result
    }
}


/// The steps of writing a cell as a stream of its own, with the cells that it reaches
/// among the given cells: a library named `library` that holds the given cells with the
/// cell put among them, of which the cell and what is reached from it are written.
pub open spec fn cell_stream(
    cells: Seq<CellView>,
    cell: CellView,
    units: Units,
    timestamp: Timestamp,
) -> Seq<Item> {
    let held = crate::library::placed(cells, cell);
    stream_items(
        LibraryView { name: "library"@, cells: held },
        reached_from(held, crate::library::place_of(held, cell.name)),
        units,
        timestamp,
    )
}

impl Cell {
    /// Writes the cell as a stream of its own: a library named `library` that holds
    /// this cell and the cells of `library` that are reached from it through references,
    /// each once, with the present moment as the moment of the last change. A cell of
    /// `library` that bears the name of this cell gives way to it; with an empty library
    /// the cell is written alone.
    pub fn to_gds(&self, library: &Library, units: Units) -> (result: Result<Vec<u8>, WriteError>)
        requires
            library@.well_formed(),
        ensures
            exists|timestamp: Timestamp|
                timestamp.plausible() && written(
                    result,
                    #[trigger] cell_stream(library@.cells, self@, units, timestamp),
                ),
    {
        let mut holder = library.copy();
        holder.name = "library".to_owned();
        assert(holder@.cells == library@.cells);
        holder.insert(self.copy());
        let top = match holder.index_of(&self.name) {
            Some(place) => place,
            None => holder.cells.len(),
        };
        let timestamp = current_timestamp();
        let result = write_gds_from(&holder, top, units, timestamp);
        proof {
            let held = crate::library::placed(library@.cells, self@);
            assert(holder@ == (LibraryView { name: "library"@, cells: held }));
            assert(reached_from(held, top as int) == reached_from(
                held,
                crate::library::place_of(held, self@.name),
            ));
            assert(written(result, cell_stream(library@.cells, self@, units, timestamp)));
        }
        result
    }
}

} // verus!
