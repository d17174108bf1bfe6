use vstd::prelude::*;
use vstd::utf8::{decode_utf8, valid_utf8};
use crate::config::gds_file_types::{DataView, GDSDataType, GDSRecord, GDSRecordData};
use crate::cell::{Cell, CellView};
use crate::element::{Instance, InstanceView, Reference, ReferenceView};
use crate::error::ReadError;
use crate::grid::Grid;
use crate::library::{placed, Library, LibraryView};
use crate::number::ONE_BITS;
use crate::path::{Path, PathType, PathView};
use crate::point::{get_points_from_i32_vec, points_of, Point};
use crate::polygon::{Polygon, PolygonView};
use crate::text::{
    get_presentations_from_value,
    is_presentation,
    HorizontalPresentation,
    Text,
    TextView,
    VerticalPresentation,
};
use crate::traits::lemma_views_push;
use crate::utils::bytes::unsigned16;
use crate::utils::io::Units;
use crate::number::Real;
use crate::utils::bytes::{
    i16s_of, i32s_of, signed16, signed32, u16_of, u32_of, u64_of, u64s_of, unpadded,
};
use crate::utils::gds_format::{decoded_bits, eight_byte_real_to_float};

verus! {

/// The characters that `String::from_utf8_lossy` makes of the bytes.
pub uninterp spec fn lossy_text(bytes: Seq<u8>) -> Seq<char>;

/// The characters that a reader makes of bytes: what the bytes encode where they are
/// well-formed UTF-8, else what `String::from_utf8_lossy` makes of them.
pub open spec fn text_from(bytes: Seq<u8>) -> Seq<char> {
    if valid_utf8(bytes) {
        decode_utf8(bytes)
    } else {
        lossy_text(bytes)
    }
}

/// The bytes as characters, by `String::from_utf8_lossy`: what the bytes encode where
/// they are well-formed UTF-8; elsewhere every ill-formed stretch is replaced by the
/// replacement character, as the standard library's documentation describes it, which
/// the contract does not spell out.
#[verifier::external_body]
fn text_of(bytes: &[u8]) -> (text: String)
    ensures
        text@ == if valid_utf8(bytes@) {
            decode_utf8(bytes@)
        } else {
            lossy_text(bytes@)
        },
{
    String::from_utf8_lossy(bytes).into_owned()
}

/// The doubles that the bytes hold as eight-byte reals, eight by eight; bytes left over
/// at the end are left out.
pub open spec fn reals_of(bytes: Seq<u8>) -> Seq<Real> {
    Seq::new(
        (bytes.len() / 8) as nat,
        |k: int| Real { bits: decoded_bits(u64_of(bytes.subrange(8 * k, 8 * k + 8))) as u64 },
    )
}

/// The payload of a record as its layout byte says to read it: a bit array as signed
/// sixteen-bit numbers, a four-byte real as signed thirty-two-bit numbers, a string
/// without the zero byte that pads it, and a payload where none is due as characters.
pub open spec fn decoded(layout: u8, payload: Seq<u8>) -> DataView {
    if layout == 1 || layout == 2 {
        DataView::I16(i16s_of(payload))
    } else if layout == 3 || layout == 4 {
        DataView::I32(i32s_of(payload))
    } else if layout == 5 {
        DataView::F64(reals_of(payload))
    } else if layout == 6 {
        DataView::Str(text_from(unpadded(payload)))
    } else {
        DataView::Str(text_from(payload))
    }
}

/// The kind of record that the byte `code` stands for.
pub open spec fn record_of(code: u8) -> GDSRecord {
    choose|record: GDSRecord| record.code() == code
}

/// No two kinds of record share a byte.
pub proof fn lemma_code_names_one(first: GDSRecord, second: GDSRecord)
    requires
        first.code() == second.code(),
    ensures
        first == second,
{
}

/// What stands at a position of a stream.
pub enum Frame {
    /// Fewer than four bytes are left: the stream is at its end.
    End,
    /// A record that ends before `next`, read or refused.
    Record { outcome: Result<(GDSRecord, DataView), ReadError>, next: int },
}

/// What stands at `position` of the stream `bytes`. A record whose length is at most
/// four is a header alone. One that declares more bytes than are left is refused as
/// truncated, and nothing follows it. One of an unknown kind is refused, and the next
/// record follows it. One of a known kind with a payload and a layout byte above 6 is
/// refused as well.
pub open spec fn frame_at(bytes: Seq<u8>, position: int) -> Frame {
    if position < 0 || bytes.len() - position < 4 {
        Frame::End
    } else {
        let size = u16_of(bytes[position], bytes[position + 1]) as int;
        let kind = bytes[position + 2];
        let layout = bytes[position + 3];
        if size > 4 && position + size > bytes.len() {
            Frame::Record {
                outcome: Err(ReadError::TruncatedRecord { offset: position as usize }),
                next: bytes.len() as int,
            }
        } else {
            let next = if size > 4 {
                position + size
            } else {
                position + 4
            };
            if !GDSRecord::is_code(kind) {
                Frame::Record {
                    outcome: Err(
                        ReadError::UnknownRecordType { offset: position as usize, tag: kind },
                    ),
                    next,
                }
            } else if size > 4 && layout > 6 {
                Frame::Record {
                    outcome: Err(
                        ReadError::UnsupportedDataType { offset: position as usize, tag: layout },
                    ),
                    next,
                }
            } else {
                Frame::Record {
                    outcome: Ok(
                        (
                            record_of(kind),
                            if size > 4 {
                                decoded(layout, bytes.subrange(position + 4, next))
                            } else {
                                DataView::Empty
                            },
                        ),
                    ),
                    next,
                }
            }
        }
    }
}

/// Whether `item` is what `outcome` describes.
pub open spec fn matches_outcome(
    item: Result<(GDSRecord, GDSRecordData), ReadError>,
    outcome: Result<(GDSRecord, DataView), ReadError>,
) -> bool {
    match (item, outcome) {
        (Ok((kind, data)), Ok((meant, view))) => kind == meant && data@ == view,
        (Err(error), Err(meant)) => error == meant,
        _ => false,
    }
}

/// Reads the signed sixteen-bit numbers that the bytes hold.
#[verifier::spinoff_prover]
pub fn read_i16_be(buf: &[u8]) -> (values: Vec<i16>)
    ensures
        values@ == i16s_of(buf@),
{
    let mut values: Vec<i16> = Vec::new();
    let mut index: usize = 0;
    while buf.len() - index >= 2
        invariant
            index <= buf.len(),
            index % 2 == 0,
            values@.len() == index / 2,
            forall|k: int|
                0 <= k < values@.len() ==> values@[k] == signed16(
                    u16_of(buf@[2 * k], buf@[2 * k + 1]),
                ),
        decreases buf.len() - index,
    {
        let word: u16 = buf[index] as u16 * 256 + buf[index + 1] as u16;
        let value: i16 = if word >= 0x8000 {
            (word as i32 - 0x1_0000) as i16
        } else {
            word as i16
        };
        values.push(value);
        index = index + 2;
    }
    assert(values@ =~= i16s_of(buf@));
    values
}

/// Reads the signed thirty-two-bit numbers that the bytes hold.
#[verifier::spinoff_prover]
pub fn read_i32_be(buf: &[u8]) -> (values: Vec<i32>)
    ensures
        values@ == i32s_of(buf@),
{
    let mut values: Vec<i32> = Vec::new();
    let mut index: usize = 0;
    while buf.len() - index >= 4
        invariant
            index <= buf.len(),
            index % 4 == 0,
            values@.len() == index / 4,
            forall|k: int|
                0 <= k < values@.len() ==> values@[k] == signed32(
                    u32_of(buf@[4 * k], buf@[4 * k + 1], buf@[4 * k + 2], buf@[4 * k + 3]),
                ),
        decreases buf.len() - index,
    {
        let word: u32 = buf[index] as u32 * 0x100_0000 + buf[index + 1] as u32 * 0x1_0000
            + buf[index + 2] as u32 * 0x100 + buf[index + 3] as u32;
        let value: i32 = if word >= 0x8000_0000 {
            (word as i64 - 0x1_0000_0000) as i32
        } else {
            word as i32
        };
        values.push(value);
        index = index + 4;
    }
    assert(values@ =~= i32s_of(buf@));
    values
}

/// Reads the sixty-four-bit words that the bytes hold.
#[verifier::spinoff_prover]
pub fn read_u64_be(buf: &[u8]) -> (values: Vec<u64>)
    ensures
        values@ == u64s_of(buf@),
{
    let mut values: Vec<u64> = Vec::new();
    let mut index: usize = 0;
    while buf.len() - index >= 8
        invariant
            index <= buf.len(),
            index % 8 == 0,
            values@.len() == index / 8,
            forall|k: int|
                0 <= k < values@.len() ==> values@[k] == u64_of(buf@.subrange(8 * k, 8 * k + 8)),
        decreases buf.len() - index,
    {
        let ghost chunk = buf@.subrange(index as int, index + 8);
        let word: u64 = buf[index] as u64 * 0x100_0000_0000_0000 + buf[index + 1] as u64
            * 0x1_0000_0000_0000 + buf[index + 2] as u64 * 0x100_0000_0000 + buf[index + 3] as u64
            * 0x1_0000_0000 + buf[index + 4] as u64 * 0x100_0000 + buf[index + 5] as u64 * 0x1_0000
            + buf[index + 6] as u64 * 0x100 + buf[index + 7] as u64;
        proof {
            assert(chunk[0] == buf@[index as int]);
            assert(chunk[1] == buf@[index + 1]);
            assert(chunk[2] == buf@[index + 2]);
            assert(chunk[3] == buf@[index + 3]);
            assert(chunk[4] == buf@[index + 4]);
            assert(chunk[5] == buf@[index + 5]);
            assert(chunk[6] == buf@[index + 6]);
            assert(chunk[7] == buf@[index + 7]);
            assert(word == u64_of(chunk));
            assert(8 * (index as int / 8) == index);
        }
        values.push(word);
        index = index + 8;
    }
    assert(values@ =~= u64s_of(buf@));
    values
}

/// Reads the doubles that the bytes hold as eight-byte reals.
#[verifier::spinoff_prover]
pub fn read_reals(buf: &[u8]) -> (values: Vec<Real>)
    ensures
        values@ == reals_of(buf@),
{
    let words = read_u64_be(buf);
    let mut values: Vec<Real> = Vec::new();
    let mut index: usize = 0;
    while index < words.len()
        invariant
            index <= words.len(),
            words@ == u64s_of(buf@),
            values@.len() == index,
            forall|k: int| 0 <= k < index ==> values@[k] == reals_of(buf@)[k],
        decreases words.len() - index,
    {
        values.push(eight_byte_real_to_float(words[index]));
        index = index + 1;
    }
    assert(values@ =~= reals_of(buf@));
    values
}

/// Reads the payload of a record as its layout says.
pub fn decode_payload(layout: GDSDataType, payload: &[u8]) -> (data: GDSRecordData)
    ensures
        data@ == decoded(layout.code(), payload@),
{
    match layout {
        GDSDataType::TwoByteSignedInteger | GDSDataType::BitArray => GDSRecordData::I16(
            read_i16_be(payload),
        ),
        GDSDataType::FourByteSignedInteger | GDSDataType::FourByteReal => GDSRecordData::I32(
            read_i32_be(payload),
        ),
        GDSDataType::EightByteReal => GDSRecordData::F64(read_reals(payload)),
        GDSDataType::AsciiString => {
            let length = payload.len();
            if length > 0 && payload[length - 1] == 0 {
                let ghost kept = payload@.subrange(0, length - 1);
                assert(kept =~= unpadded(payload@));
                GDSRecordData::Str(text_of(vstd::slice::slice_subrange(payload, 0, length - 1)))
            } else {
                GDSRecordData::Str(text_of(payload))
            }
        },
        GDSDataType::NoData => GDSRecordData::Str(text_of(payload)),
    }
}

/// A stream, and how far it has been read.
pub struct RecordReader {
    pub bytes: Vec<u8>,
    pub position: usize,
}

impl RecordReader {
    /// A reader at the start of the stream.
    pub fn new(bytes: Vec<u8>) -> (reader: RecordReader)
        ensures
            reader.bytes@ == bytes@,
            reader.position == 0,
    {
        RecordReader { bytes, position: 0 }
    }

    /// Reads the record at the reader's position and moves past it. `None` at the end of
    /// the stream, which is where fewer than four bytes are left.
    pub fn next(&mut self) -> (item: Option<Result<(GDSRecord, GDSRecordData), ReadError>>)
        ensures
            final(self).bytes@ == old(self).bytes@,
            match frame_at(old(self).bytes@, old(self).position as int) {
                Frame::End => item.is_none() && final(self).position == old(self).position,
                Frame::Record { outcome, next } => final(self).position == next && (
                item matches Some(read) && matches_outcome(read, outcome)),
            },
    {
        let length = self.bytes.len();
        let position = self.position;
        if position > length || length - position < 4 {
            return None;
        }
        let size: usize = self.bytes[position] as usize * 256 + self.bytes[position + 1] as usize;
        let kind = self.bytes[position + 2];
        let layout = self.bytes[position + 3];
        if size > 4 && size > length - position {
            self.position = length;
            return Some(Err(ReadError::TruncatedRecord { offset: position }));
        }
        let next: usize = if size > 4 {
            position + size
        } else {
            position + 4
        };
        self.position = next;
        let record = match GDSRecord::try_from(kind) {
            Ok(record) => record,
            Err(_) => {
                return Some(Err(ReadError::UnknownRecordType { offset: position, tag: kind }));
            },
        };
        proof {
            lemma_code_names_one(record, record_of(kind));
        }
        if size <= 4 {
            return Some(Ok((record, GDSRecordData::Empty)));
        }
        let data = match GDSDataType::try_from(layout) {
            Ok(data_type) => decode_payload(
                data_type,
                vstd::slice::slice_subrange(self.bytes.as_slice(), position + 4, next),
            ),
            Err(_) => {
                return Some(Err(ReadError::UnsupportedDataType { offset: position, tag: layout }));
            },
        };
        Some(Ok((record, data)))
    }
}


/// What the reader holds between two records: the library read so far, the units if
/// they have been read, the cell that is open, and the elements that are open.
pub struct Reading {
    pub library: Library,
    pub units: Option<Units>,
    pub cell: Option<Cell>,
    pub path: Option<Path>,
    pub polygon: Option<Polygon>,
    pub text: Option<Text>,
    pub reference: Option<Reference>,
}

/// What the reader holds between two records.
pub struct ReadingView {
    pub library: LibraryView,
    pub units: Option<Units>,
    pub cell: Option<CellView>,
    pub path: Option<PathView>,
    pub polygon: Option<PolygonView>,
    pub text: Option<TextView>,
    pub reference: Option<ReferenceView>,
}

/// What an optional value is.
pub open spec fn option_view<T: View>(value: Option<T>) -> Option<T::V> {
    match value {
        Some(inner) => Some(inner@),
        None => None,
    }
}

impl View for Reading {
    type V = ReadingView;

    open spec fn view(&self) -> ReadingView {
        ReadingView {
            library: self.library@,
            units: self.units,
            cell: option_view(self.cell),
            path: option_view(self.path),
            polygon: option_view(self.polygon),
            text: option_view(self.text),
            reference: option_view(self.reference),
        }
    }
}

/// The polygon that the start of a polygon opens: no points, layer 0, data type 0.
pub open spec fn blank_polygon() -> PolygonView {
    PolygonView { points: Seq::empty(), layer: 0, data_type: 0 }
}

/// The path that the start of a path opens: no points, layer 0, data type 0, no style
/// and no width.
pub open spec fn blank_path() -> PathView {
    PathView { points: Seq::empty(), layer: 0, data_type: 0, path_type: None, width: None }
}

/// The text that the start of a text opens: no characters, at the origin of the
/// coordinates, on layer 0, as large as it is, not turned, not mirrored, anchored in its
/// middle.
pub open spec fn blank_text() -> TextView {
    TextView {
        text: Seq::empty(),
        origin: Point { x: 0, y: 0 },
        layer: 0,
        magnification: Real { bits: ONE_BITS },
        angle: Real { bits: 0 },
        x_reflection: false,
        vertical_presentation: VerticalPresentation::Middle,
        horizontal_presentation: HorizontalPresentation::Centre,
    }
}

/// The reference that the start of a reference opens: a single instance, at the origin
/// of the coordinates, of a cell without a name.
pub open spec fn blank_reference() -> ReferenceView {
    ReferenceView { instance: InstanceView::Cell(Seq::empty()), grid: Grid::default_spec() }
}

/// The state at the start of a stream: a library named `Library` without cells, and
/// nothing open.
pub open spec fn blank_reading() -> ReadingView {
    ReadingView {
        library: LibraryView { name: "Library"@, cells: Seq::empty() },
        units: None,
        cell: None,
        path: None,
        polygon: None,
        text: None,
        reference: None,
    }
}

/// The sixteen bits of a stored number read as a count without a sign: what a number of
/// columns or rows is read as, from 0 to 65535.
pub open spec fn widened(value: i16) -> u32 {
    unsigned16(value) as u32
}

/// The state after a layer has been read: it goes to the open polygon, else to the open
/// path, else to the open text.
pub open spec fn with_layer(state: ReadingView, layer: i32) -> ReadingView {
    if let Some(polygon) = state.polygon {
        ReadingView { polygon: Some(PolygonView { layer, ..polygon }), ..state }
    } else if let Some(path) = state.path {
        ReadingView { path: Some(PathView { layer, ..path }), ..state }
    } else if let Some(text) = state.text {
        ReadingView { text: Some(TextView { layer, ..text }), ..state }
    } else {
        state
    }
}

/// The state after a data type has been read: it goes to the open polygon, else to the
/// open path.
pub open spec fn with_data_type(state: ReadingView, data_type: i32) -> ReadingView {
    if let Some(polygon) = state.polygon {
        ReadingView { polygon: Some(PolygonView { data_type, ..polygon }), ..state }
    } else if let Some(path) = state.path {
        ReadingView { path: Some(PathView { data_type, ..path }), ..state }
    } else {
        state
    }
}

/// The grid of a reference after its coordinates have been read: one point is the
/// origin of a single instance, three are the corners of an array, and any other number
/// changes nothing.
pub open spec fn with_corners(grid: Grid, points: Seq<Point>) -> Grid {
    if points.len() == 1 {
        Grid { origin: points[0], corner_x: points[0], corner_y: points[0], ..grid }
    } else if points.len() == 3 {
        Grid { origin: points[0], corner_x: points[1], corner_y: points[2], ..grid }
    } else {
        grid
    }
}

/// The state after coordinates have been read: they are added to the points of the open
/// polygon, else to those of the open path; else they set the grid of the open
/// reference; else the first of them is the origin of the open text.
pub open spec fn with_points(state: ReadingView, points: Seq<Point>) -> ReadingView {
    if let Some(polygon) = state.polygon {
        ReadingView {
            polygon: Some(PolygonView { points: polygon.points + points, ..polygon }),
            ..state
        }
    } else if let Some(path) = state.path {
        ReadingView { path: Some(PathView { points: path.points + points, ..path }), ..state }
    } else if let Some(reference) = state.reference {
        ReadingView {
            reference: Some(
                ReferenceView { grid: with_corners(reference.grid, points), ..reference },
            ),
            ..state
        }
    } else if let Some(text) = state.text {
        if points.len() > 0 {
            ReadingView { text: Some(TextView { origin: points[0], ..text }), ..state }
        } else {
            state
        }
    } else {
        state
    }
}

/// The state after the end of an element has been read: the open polygon, else the open
/// path, else the open text, else the open reference joins the open cell, and nothing is
/// open any more. Without an open cell the open elements are dropped.
pub open spec fn with_element_closed(state: ReadingView) -> ReadingView {
    let cell = match state.cell {
        None => None,
        Some(cell) => Some(
            if let Some(polygon) = state.polygon {
                CellView { polygons: cell.polygons.push(polygon), ..cell }
            } else if let Some(path) = state.path {
                CellView { paths: cell.paths.push(path), ..cell }
            } else if let Some(text) = state.text {
                CellView { texts: cell.texts.push(text), ..cell }
            } else if let Some(reference) = state.reference {
                CellView { references: cell.references.push(reference), ..cell }
            } else {
                cell
            },
        ),
    };
    ReadingView { cell, polygon: None, path: None, text: None, reference: None, ..state }
}

/// The state after transform flags have been read: the mirror of the open text and of
/// the open reference is the top bit.
pub open spec fn with_mirror(state: ReadingView, x_reflection: bool) -> ReadingView {
    ReadingView {
        text: match state.text {
            Some(text) => Some(TextView { x_reflection, ..text }),
            None => None,
        },
        reference: match state.reference {
            Some(reference) => Some(
                ReferenceView { grid: Grid { x_reflection, ..reference.grid }, ..reference },
            ),
            None => None,
        },
        ..state
    }
}

/// The state after a magnification has been read: it goes to the open text, else to the
/// open reference.
pub open spec fn with_magnification(state: ReadingView, magnification: Real) -> ReadingView {
    if let Some(text) = state.text {
        ReadingView { text: Some(TextView { magnification, ..text }), ..state }
    } else if let Some(reference) = state.reference {
        ReadingView {
            reference: Some(
                ReferenceView { grid: Grid { magnification, ..reference.grid }, ..reference },
            ),
            ..state
        }
    } else {
        state
    }
}

/// The state after an angle has been read: it goes to the open text, else to the open
/// reference.
pub open spec fn with_angle(state: ReadingView, angle: Real) -> ReadingView {
    if let Some(text) = state.text {
        ReadingView { text: Some(TextView { angle, ..text }), ..state }
    } else if let Some(reference) = state.reference {
        ReadingView {
            reference: Some(ReferenceView { grid: Grid { angle, ..reference.grid }, ..reference }),
            ..state
        }
    } else {
        state
    }
}

/// The state after a record of the given kind with the given payload has been read, or
/// why the record is refused. A record that does not carry what its kind asks for, or
/// that finds nothing open to which it could apply, changes nothing; so does a record of
/// a kind that the reader has no use for.
#[verifier::opaque]
pub open spec fn step(state: ReadingView, kind: GDSRecord, data: DataView) -> Result<
    ReadingView,
    ReadError,
> {
    match kind {
        GDSRecord::LibName => Ok(
            match data {
                DataView::Str(name) => ReadingView {
                    library: LibraryView { name, ..state.library },
                    ..state
                },
                _ => state,
            },
        ),
        GDSRecord::Units => Ok(
            match data {
                DataView::F64(values) => if values.len() >= 2 {
                    ReadingView {
                        units: Some(Units { user: values[0], meters: values[1] }),
                        ..state
                    }
                } else {
                    state
                },
                _ => state,
            },
        ),
        GDSRecord::BgnStr => Ok(
            ReadingView { cell: Some(CellView::empty(Seq::empty())), ..state },
        ),
        GDSRecord::StrName => Ok(
            match (data, state.cell) {
                (DataView::Str(name), Some(cell)) => ReadingView {
                    cell: Some(CellView { name, ..cell }),
                    ..state
                },
                _ => state,
            },
        ),
        GDSRecord::EndStr => Ok(
            match state.cell {
                Some(cell) => ReadingView {
                    library: LibraryView {
                        cells: placed(state.library.cells, cell),
                        ..state.library
                    },
                    cell: None,
                    ..state
                },
                None => state,
            },
        ),
        GDSRecord::Boundary | GDSRecord::Box => Ok(
            ReadingView { polygon: Some(blank_polygon()), ..state },
        ),
        GDSRecord::Path | GDSRecord::RaithMbmsPath => Ok(
            ReadingView { path: Some(blank_path()), ..state },
        ),
        GDSRecord::ARef | GDSRecord::SRef => Ok(
            ReadingView { reference: Some(blank_reference()), ..state },
        ),
        GDSRecord::Text => Ok(ReadingView { text: Some(blank_text()), ..state }),
        GDSRecord::Layer => Ok(
            match data {
                DataView::I16(values) => if values.len() >= 1 {
                    with_layer(state, values[0] as i32)
                } else {
                    state
                },
                _ => state,
            },
        ),
        GDSRecord::DataType | GDSRecord::BoxType => Ok(
            match data {
                DataView::I16(values) => if values.len() >= 1 {
                    with_data_type(state, values[0] as i32)
                } else {
                    state
                },
                _ => state,
            },
        ),
        GDSRecord::Width => Ok(
            match (data, state.path) {
                (DataView::I32(values), Some(path)) => if values.len() >= 1 {
                    ReadingView {
                        path: Some(PathView { width: Some(values[0]), ..path }),
                        ..state
                    }
                } else {
                    state
                },
                _ => state,
            },
        ),
        GDSRecord::XY => Ok(
            match data {
                DataView::I32(values) => with_points(state, points_of(values)),
                _ => state,
            },
        ),
        GDSRecord::EndEl => Ok(with_element_closed(state)),
        GDSRecord::SName => Ok(
            match (data, state.reference) {
                (DataView::Str(name), Some(reference)) => match reference.instance {
                    InstanceView::Cell(_) => ReadingView {
                        reference: Some(
                            ReferenceView { instance: InstanceView::Cell(name), ..reference },
                        ),
                        ..state
                    },
                    InstanceView::Element(_) => state,
                },
                _ => state,
            },
        ),
        GDSRecord::ColRow => Ok(
            match (data, state.reference) {
                (DataView::I16(values), Some(reference)) => if values.len() >= 2 {
                    ReadingView {
                        reference: Some(
                            ReferenceView {
                                grid: Grid {
                                    columns: widened(values[0]),
                                    rows: widened(values[1]),
                                    ..reference.grid
                                },
                                ..reference
                            },
                        ),
                        ..state
                    }
                } else {
                    state
                },
                _ => state,
            },
        ),
        GDSRecord::Presentation => match (data, state.text) {
            (DataView::I16(values), Some(text)) => if values.len() >= 1 {
                let flags = unsigned16(values[0]);
                if is_presentation(flags) {
                    Ok(
                        ReadingView {
                            text: Some(
                                TextView {
                                    vertical_presentation: vertical_of(flags),
                                    horizontal_presentation: horizontal_of(flags),
                                    ..text
                                },
                            ),
                            ..state
                        },
                    )
                } else {
                    Err(ReadError::InvalidPresentation { value: flags })
                }
            } else {
                Ok(state)
            },
            _ => Ok(state),
        },
        GDSRecord::String => Ok(
            match (data, state.text) {
                (DataView::Str(label), Some(text)) => ReadingView {
                    text: Some(TextView { text: label, ..text }),
                    ..state
                },
                _ => state,
            },
        ),
        GDSRecord::STrans => Ok(
            match data {
                DataView::I16(values) => if values.len() >= 1 {
                    with_mirror(state, values[0] < 0)
                } else {
                    state
                },
                _ => state,
            },
        ),
        GDSRecord::Mag => Ok(
            match data {
                DataView::F64(values) => if values.len() >= 1 {
                    with_magnification(state, values[0])
                } else {
                    state
                },
                _ => state,
            },
        ),
        GDSRecord::Angle => Ok(
            match data {
                DataView::F64(values) => if values.len() >= 1 {
                    with_angle(state, values[0])
                } else {
                    state
                },
                _ => state,
            },
        ),
        GDSRecord::PathType => match (data, state.path) {
            (DataView::I16(values), Some(path)) => if values.len() >= 1 {
                if 0 <= values[0] <= 2 {
                    Ok(
                        ReadingView {
                            path: Some(PathView { path_type: Some(style_of(values[0])), ..path }),
                            ..state
                        },
                    )
                } else {
                    Err(ReadError::InvalidPathType { style: values[0] as i32 })
                }
            } else {
                Ok(state)
            },
            _ => Ok(state),
        },
        _ => Ok(state),
    }
}

/// The vertical anchor that presentation flags name.
pub open spec fn vertical_of(flags: u16) -> VerticalPresentation {
    if flags / 4 == 0 {
        VerticalPresentation::Top
    } else if flags / 4 == 1 {
        VerticalPresentation::Middle
    } else {
        VerticalPresentation::Bottom
    }
}

/// The horizontal anchor that presentation flags name.
pub open spec fn horizontal_of(flags: u16) -> HorizontalPresentation {
    if flags % 4 == 0 {
        HorizontalPresentation::Left
    } else if flags % 4 == 1 {
        HorizontalPresentation::Centre
    } else {
        HorizontalPresentation::Right
    }
}

/// The end-cap style with the given number.
pub open spec fn style_of(value: i16) -> PathType {
    if value == 0 {
        PathType::Square
    } else if value == 1 {
        PathType::Round
    } else {
        PathType::Overlap
    }
}

/// What reading the stream from `position` on makes of the state: the state at the end
/// of the stream or at the record that ends the library, or the first refusal. A record
/// of an unknown kind is passed over.
pub open spec fn read_from(bytes: Seq<u8>, position: int, state: ReadingView) -> Result<
    ReadingView,
    ReadError,
>
    decreases bytes.len() - position,
{
    match frame_at(bytes, position) {
        Frame::End => Ok(state),
        Frame::Record { outcome, next } => match outcome {
            Err(ReadError::UnknownRecordType { offset, tag }) => read_from(bytes, next, state),
            Err(error) => Err(error),
            Ok((kind, data)) => if kind == GDSRecord::EndLib {
                Ok(state)
            } else {
                match step(state, kind, data) {
                    Err(error) => Err(error),
                    Ok(after) => read_from(bytes, next, after),
                }
            },
        },
    }
}

/// What reading a stream gives: the library and the units, if the stream holds them, or
/// why the stream is refused. A stream that does not begin with a header record is
/// refused: as truncated or for its layout byte where that is what is wrong with its
/// first record, else for the missing header.
pub open spec fn read_stream(bytes: Seq<u8>) -> Result<(LibraryView, Option<Units>), ReadError> {
    match frame_at(bytes, 0) {
        Frame::End => Err(ReadError::MissingHeader),
        Frame::Record { outcome, next } => match outcome {
            Err(ReadError::UnknownRecordType { offset, tag }) => Err(ReadError::MissingHeader),
            Err(error) => Err(error),
            Ok((kind, data)) => if kind == GDSRecord::Header {
                match read_from(bytes, next, blank_reading()) {
                    Err(error) => Err(error),
                    Ok(state) => Ok((state.library, state.units)),
                }
            } else {
                Err(ReadError::MissingHeader)
            },
        },
    }
}


/// A polygon without points, on layer 0 with data type 0.
fn new_polygon() -> (polygon: Polygon)
    ensures
        polygon@ == blank_polygon(),
{
    Polygon { points: Vec::new(), layer: 0, data_type: 0 }
}

/// A path without points, style or width, on layer 0 with data type 0.
fn new_path() -> (path: Path)
    ensures
        path@ == blank_path(),
{
    Path { points: Vec::new(), layer: 0, data_type: 0, path_type: None, width: None }
}

/// A text without characters, at the origin of the coordinates.
fn new_text() -> (text: Text)
    ensures
        text@ == blank_text(),
{
    Text {
        text: String::new(),
        origin: Point { x: 0, y: 0 },
        layer: 0,
        magnification: Real::one(),
        angle: Real::zero(),
        x_reflection: false,
        vertical_presentation: VerticalPresentation::Middle,
        horizontal_presentation: HorizontalPresentation::Centre,
    }
}

/// A single instance, at the origin of the coordinates, of a cell without a name.
fn new_reference() -> (reference: Reference)
    ensures
        reference@ == blank_reference(),
{
    Reference { instance: Instance::Cell(String::new()), grid: Grid::single() }
}

/// The sixteen bits of a stored number read as a count without a sign.
#[verifier::spinoff_prover]
fn widen(value: i16) -> (wide: u32)
    ensures
        wide == widened(value),
{
    if value < 0 {
        (value as i32 + 0x1_0000) as u32
    } else {
        value as u32
    }
}

/// The sixteen-bit pattern of a signed number.
#[verifier::spinoff_prover]
fn pattern16(value: i16) -> (word: u16)
    ensures
        word == unsigned16(value),
{
    if value < 0 {
        (value as i32 + 0x1_0000) as u16
    } else {
        value as u16
    }
}

impl Reading {
    /// Whether the library read so far is as a library must be.
    pub open spec fn well_formed(&self) -> bool {
        self.library@.well_formed()
    }

    /// The state at the start of a stream.
    pub fn new() -> (state: Reading)
        ensures
            state@ == blank_reading(),
            state.well_formed(),
    {
        Reading {
            library: Library::new("Library".to_owned()),
            units: None,
            cell: None,
            path: None,
            polygon: None,
            text: None,
            reference: None,
        }
    }

    /// Takes a layer to the open polygon, else to the open path, else to the open text.
    fn set_layer(&mut self, layer: i32)
        ensures
            final(self)@ == with_layer(old(self)@, layer),
            final(self).library == old(self).library,
    {
        match self.polygon.take() {
            Some(mut polygon) => {
                polygon.layer = layer;
                self.polygon = Some(polygon);
            },
            None => match self.path.take() {
                Some(mut path) => {
                    path.layer = layer;
                    self.path = Some(path);
                },
                None => match self.text.take() {
                    Some(mut text) => {
                        text.layer = layer;
                        self.text = Some(text);
                    },
                    None => {},
                },
            },
        }
    }

    /// Takes a data type to the open polygon, else to the open path.
    fn set_data_type(&mut self, data_type: i32)
        ensures
            final(self)@ == with_data_type(old(self)@, data_type),
            final(self).library == old(self).library,
    {
        match self.polygon.take() {
            Some(mut polygon) => {
                polygon.data_type = data_type;
                self.polygon = Some(polygon);
            },
            None => match self.path.take() {
                Some(mut path) => {
                    path.data_type = data_type;
                    self.path = Some(path);
                },
                None => {},
            },
        }
    }

    /// Takes coordinates to the open polygon, else to the open path, else to the open
    /// reference, else to the open text.
    fn set_points(&mut self, points: Vec<Point>)
        ensures
            final(self)@ == with_points(old(self)@, points@),
            final(self).library == old(self).library,
    {
        let mut points = points;
        match self.polygon.take() {
            Some(mut polygon) => {
                polygon.points.append(&mut points);
                self.polygon = Some(polygon);
            },
            None => match self.path.take() {
                Some(mut path) => {
                    path.points.append(&mut points);
                    self.path = Some(path);
                },
                None => match self.reference.take() {
                    Some(mut reference) => {
                        if points.len() == 1 {
                            reference.grid.origin = points[0];
                            reference.grid.corner_x = points[0];
                            reference.grid.corner_y = points[0];
                        } else if points.len() == 3 {
                            reference.grid.origin = points[0];
                            reference.grid.corner_x = points[1];
                            reference.grid.corner_y = points[2];
                        }
                        self.reference = Some(reference);
                    },
                    None => match self.text.take() {
                        Some(mut text) => {
                            if points.len() > 0 {
                                text.origin = points[0];
                            }
                            self.text = Some(text);
                        },
                        None => {},
                    },
                },
            },
        }
    }

    /// Ends the open element: it joins the open cell, and nothing is open any more.
    fn close_element(&mut self)
        ensures
            final(self)@ == with_element_closed(old(self)@),
            final(self).library == old(self).library,
    {
        let polygon = self.polygon.take();
        let path = self.path.take();
        let text = self.text.take();
        let reference = self.reference.take();
        match self.cell.take() {
            None => {},
            Some(mut cell) => {
                match polygon {
                    Some(polygon) => {
                        proof {
                            lemma_views_push(cell.polygons@, polygon);
                        }
                        cell.polygons.push(polygon);
                    },
                    None => match path {
                        Some(path) => {
                            proof {
                                lemma_views_push(cell.paths@, path);
                            }
                            cell.paths.push(path);
                        },
                        None => match text {
                            Some(text) => {
                                proof {
                                    lemma_views_push(cell.texts@, text);
                                }
                                cell.texts.push(text);
                            },
                            None => match reference {
                                Some(reference) => {
                                    proof {
                                        lemma_views_push(cell.references@, reference);
                                    }
                                    cell.references.push(reference);
                                },
                                None => {},
                            },
                        },
                    },
                }
                self.cell = Some(cell);
            },
        }
    }

    /// Takes the mirror to the open text and to the open reference.
    fn set_mirror(&mut self, x_reflection: bool)
        ensures
            final(self)@ == with_mirror(old(self)@, x_reflection),
            final(self).library == old(self).library,
    {
        match self.text.take() {
            Some(mut text) => {
                text.x_reflection = x_reflection;
                self.text = Some(text);
            },
            None => {},
        }
        match self.reference.take() {
            Some(mut reference) => {
                reference.grid.x_reflection = x_reflection;
                self.reference = Some(reference);
            },
            None => {},
        }
    }

    /// Takes a magnification to the open text, else to the open reference.
    fn set_magnification(&mut self, magnification: Real)
        ensures
            final(self)@ == with_magnification(old(self)@, magnification),
            final(self).library == old(self).library,
    {
        match self.text.take() {
            Some(mut text) => {
                text.magnification = magnification;
                self.text = Some(text);
            },
            None => match self.reference.take() {
                Some(mut reference) => {
                    reference.grid.magnification = magnification;
                    self.reference = Some(reference);
                },
                None => {},
            },
        }
    }

    /// Takes an angle to the open text, else to the open reference.
    fn set_angle(&mut self, angle: Real)
        ensures
            final(self)@ == with_angle(old(self)@, angle),
            final(self).library == old(self).library,
    {
        match self.text.take() {
            Some(mut text) => {
                text.angle = angle;
                self.text = Some(text);
            },
            None => match self.reference.take() {
                Some(mut reference) => {
                    reference.grid.angle = angle;
                    self.reference = Some(reference);
                },
                None => {},
            },
        }
    }

    /// Takes one record into the state. Where the record is refused, the state is of no
    /// more use.
    pub fn step(&mut self, kind: GDSRecord, data: GDSRecordData) -> (result: Result<
        (),
        ReadError,
    >)
        requires
            old(self).well_formed(),
        ensures
            final(self).well_formed(),
            match step(old(self)@, kind, data@) {
                Ok(after) => result.is_ok() && final(self)@ == after,
                Err(error) => result == Err::<(), ReadError>(error),
            },
    {
        proof {
            reveal(step);
        }
        match kind {
            GDSRecord::LibName => {
                if let GDSRecordData::Str(name) = data {
                    self.library.name = name;
                }
            },
            GDSRecord::Units => {
                if let GDSRecordData::F64(values) = data {
                    if values.len() >= 2 {
                        self.units = Some(Units { user: values[0], meters: values[1] });
                    }
                }
            },
            GDSRecord::BgnStr => {
                self.cell = Some(Cell::new(String::new()));
            },
            GDSRecord::StrName => {
                if let GDSRecordData::Str(name) = data {
                    match self.cell.take() {
                        Some(mut cell) => {
                            cell.name = name;
                            self.cell = Some(cell);
                        },
                        None => {},
                    }
                }
            },
            GDSRecord::EndStr => {
                match self.cell.take() {
                    Some(cell) => {
                        self.library.insert(cell);
                    },
                    None => {},
                }
            },
            GDSRecord::Boundary | GDSRecord::Box => {
                self.polygon = Some(new_polygon());
            },
            GDSRecord::Path | GDSRecord::RaithMbmsPath => {
                self.path = Some(new_path());
            },
            GDSRecord::ARef | GDSRecord::SRef => {
                self.reference = Some(new_reference());
            },
            GDSRecord::Text => {
                self.text = Some(new_text());
            },
            GDSRecord::Layer => {
                if let GDSRecordData::I16(values) = data {
                    if values.len() >= 1 {
                        self.set_layer(values[0] as i32);
                    }
                }
            },
            GDSRecord::DataType | GDSRecord::BoxType => {
                if let GDSRecordData::I16(values) = data {
                    if values.len() >= 1 {
                        self.set_data_type(values[0] as i32);
                    }
                }
            },
            GDSRecord::Width => {
                if let GDSRecordData::I32(values) = data {
                    if values.len() >= 1 {
                        match self.path.take() {
                            Some(mut path) => {
                                path.width = Some(values[0]);
                                self.path = Some(path);
                            },
                            None => {},
                        }
                    }
                }
            },
            GDSRecord::XY => {
                if let GDSRecordData::I32(values) = data {
                    self.set_points(get_points_from_i32_vec(values));
                }
            },
            GDSRecord::EndEl => {
                self.close_element();
            },
            GDSRecord::SName => {
                if let GDSRecordData::Str(name) = data {
                    match self.reference.take() {
                        Some(mut reference) => {
                            if let Instance::Cell(_) = &reference.instance {
                                reference.instance = Instance::Cell(name);
                            }
                            self.reference = Some(reference);
                        },
                        None => {},
                    }
                }
            },
            GDSRecord::ColRow => {
                if let GDSRecordData::I16(values) = data {
                    if values.len() >= 2 {
                        match self.reference.take() {
                            Some(mut reference) => {
                                reference.grid.columns = widen(values[0]);
                                reference.grid.rows = widen(values[1]);
                                self.reference = Some(reference);
                            },
                            None => {},
                        }
                    }
                }
            },
            GDSRecord::Presentation => {
                if let GDSRecordData::I16(values) = data {
                    if values.len() >= 1 {
                        match self.text.take() {
                            Some(mut text) => {
                                let flags = pattern16(values[0]);
                                match get_presentations_from_value(flags) {
                                    Some((vertical, horizontal)) => {
                                        text.vertical_presentation = vertical;
                                        text.horizontal_presentation = horizontal;
                                        self.text = Some(text);
                                    },
                                    None => {
                                        return Err(ReadError::InvalidPresentation { value: flags });
                                    },
                                }
                            },
                            None => {},
                        }
                    }
                }
            },
            GDSRecord::String => {
                if let GDSRecordData::Str(label) = data {
                    match self.text.take() {
                        Some(mut text) => {
                            text.text = label;
                            self.text = Some(text);
                        },
                        None => {},
                    }
                }
            },
            GDSRecord::STrans => {
                if let GDSRecordData::I16(values) = data {
                    if values.len() >= 1 {
                        self.set_mirror(values[0] < 0);
                    }
                }
            },
            GDSRecord::Mag => {
                if let GDSRecordData::F64(values) = data {
                    if values.len() >= 1 {
                        self.set_magnification(values[0]);
                    }
                }
            },
            GDSRecord::Angle => {
                if let GDSRecordData::F64(values) = data {
                    if values.len() >= 1 {
                        self.set_angle(values[0]);
                    }
                }
            },
            GDSRecord::PathType => {
                if let GDSRecordData::I16(values) = data {
                    if values.len() >= 1 {
                        match self.path.take() {
                            Some(mut path) => {
                                match PathType::new(values[0] as i32) {
                                    Some(style) => {
                                        path.path_type = Some(style);
                                        self.path = Some(path);
                                    },
                                    None => {
                                        return Err(
                                            ReadError::InvalidPathType { style: values[0] as i32 },
                                        );
                                    },
                                }
                            },
                            None => {},
                        }
                    }
                }
            },
            _ => {},
        }
        Ok(())
    }
}

/// Whether `result` is what `outcome` describes.
pub open spec fn is_read(
    result: Result<(Library, Option<Units>), ReadError>,
    outcome: Result<(LibraryView, Option<Units>), ReadError>,
) -> bool {
    match (result, outcome) {
        (Ok((library, units)), Ok((meant, sizes))) => library@ == meant && units == sizes,
        (Err(error), Err(meant)) => error == meant,
        _ => false,
    }
}

/// Reads a stream: the library that it holds, and the size of its database unit if it
/// says it. The coordinates of the library are those of the stream, in database units.
/// What the first record must be, which records are passed over and which are refused
/// is set out by `read_stream`. A later cell takes the place of an earlier one of the
/// same name. References keep the names that they were read with, whether or not the
/// stream defines a cell of that name.
pub fn from_gds(bytes: Vec<u8>) -> (result: Result<(Library, Option<Units>), ReadError>)
    ensures
        is_read(result, read_stream(bytes@)),
        result matches Ok((library, _)) ==> library@.well_formed(),
{
    let mut reader = RecordReader::new(bytes);
    match reader.next() {
        None => {
            return Err(ReadError::MissingHeader);
        },
        Some(Err(ReadError::UnknownRecordType { offset, tag })) => {
            return Err(ReadError::MissingHeader);
        },
        Some(Err(error)) => {
            return Err(error);
        },
        Some(Ok((kind, _))) => {
            if kind.value() != 0 {
                return Err(ReadError::MissingHeader);
            }
            proof {
                lemma_code_names_one(kind, GDSRecord::Header);
            }
        },
    }
    let ghost start = reader.position as int;
    let ghost total = read_from(bytes@, start, blank_reading());
    let mut state = Reading::new();
    loop
        invariant_except_break
            read_from(bytes@, reader.position as int, state@) == total,
        invariant
            reader.bytes@ == bytes@,
            state.well_formed(),
            read_stream(bytes@) == match total {
                Err(error) => Err::<(LibraryView, Option<Units>), ReadError>(error),
                Ok(end) => Ok::<(LibraryView, Option<Units>), ReadError>((end.library, end.units)),
            },
        ensures
            total == Ok::<ReadingView, ReadError>(state@),
            state.well_formed(),
            read_stream(bytes@) == match total {
                Err(error) => Err::<(LibraryView, Option<Units>), ReadError>(error),
                Ok(end) => Ok::<(LibraryView, Option<Units>), ReadError>((end.library, end.units)),
            },
        decreases bytes@.len() - reader.position,
    {
        let ghost position = reader.position as int;
        match reader.next() {
            None => {
                break ;
            },
            Some(Err(ReadError::UnknownRecordType { offset, tag })) => {},
            Some(Err(error)) => {
                return Err(error);
            },
            Some(Ok((kind, data))) => {
                if kind.value() == 4 {
                    proof {
                        lemma_code_names_one(kind, GDSRecord::EndLib);
                    }
                    break ;
                }
                match state.step(kind, data) {
                    Err(error) => {
                        return Err(error);
                    },
                    Ok(_) => {},
                }
            },
        }
    }
    Ok((state.library, state.units))
}

} // verus!
