use vstd::prelude::*;
use crate::writer::ToGds;
use crate::config::gds_file_types::{DataView, GDSDataType, GDSRecord, MAX_POLYGON_POINTS};
use crate::error::ReadError;
use crate::reader::{
    decoded, frame_at, lemma_code_names_one, read_from, record_of, step, Frame, ReadingView,
};
use crate::cell::CellView;
use crate::element::{ElementView, InstanceView, ReferenceView};
use crate::flatten::{unplaced, PlacedView};
use crate::motion::{chain_copies, expansion};
use crate::writer::{shape_items, shapes_items};
use crate::grid::Grid;
use crate::number::{Real, TWO_POW_63};
use crate::path::PathView;
use crate::point::{points_of, Point};
use crate::polygon::PolygonView;
use crate::reader::{blank_path, blank_polygon, blank_reference, blank_text, reals_of, with_points};
use crate::number::ONE_BITS;
use crate::path::Path;
use crate::polygon::Polygon;
use crate::reader::{
    horizontal_of,
    style_of,
    vertical_of,
    widened,
    with_angle,
    with_data_type,
    with_element_closed,
    with_layer,
    with_magnification,
    with_mirror,
};
use crate::element::Reference;
use crate::text::{presentation_flags, Text, TextView};
use crate::utils::bytes::{lemma_low_word_signed, low_word};
use crate::library::{distinct_names, has_name, place_of, placed, LibraryView};
use crate::order::{lemma_write_order_once, write_order};
use crate::reader::{blank_reading, read_stream};
use crate::utils::clock::Timestamp;
use crate::utils::io::{head_records, stamps, transformation_records, Units, STREAM_VERSION};
use crate::writer::{cell_items, cells_items, gathered, library_items};
use crate::writer::{array_records, colrow_record, path_records, text_records, width_record};
use crate::utils::bytes::{
    be_u16,
    i16s_bytes,
    i16s_of,
    lemma_i16s_round_trip,
    lemma_i32s_round_trip,
    padded,
    signed16,
    u16_of,
    u64_of,
    unpadded,
    unsigned16,
};
use crate::utils::gds_format::{be_u64, lemma_real_round_trip, real_word, representable};
use crate::utils::io::{
    characters, coordinates, lemma_as_items_concat, lemma_as_items_one, number, plain, short,
    xy_record, xy_records,
};
use crate::utils::stream::{as_items, reals_bytes};
use vstd::utf8::{decode_utf8, encode_utf8, encode_utf8_decode_utf8, encode_utf8_valid_utf8};
use crate::utils::stream::{
    data_bytes, lemma_outcome_concat, lemma_outcome_one, outcome, record_bytes, record_fault,
    Item, RecordView, MAX_PAYLOAD,
};

verus! {

/// What a reader makes of the payload of a record that a writer has written: nothing
/// where the payload is empty, else the payload read as the layout of the record says.
pub open spec fn read_back(record: RecordView) -> DataView {
    if data_bytes(record.data).len() == 0 {
        DataView::Empty
    } else {
        decoded(record.layout.code(), data_bytes(record.data))
    }
}

/// The state of a reader after it has read the records that the items write, one after
/// the other; `None` where an item is a fault, where a record ends the library, or where
/// the reader refuses a record.
pub open spec fn run(state: ReadingView, items: Seq<Item>) -> Option<ReadingView>
    decreases items.len(),
{
    if items.len() == 0 {
        Some(state)
    } else {
        match run(state, items.drop_last()) {
            None => None,
            Some(middle) => match items.last() {
                Item::Fault(_) => None,
                Item::Record(record) => if record.kind == GDSRecord::EndLib {
                    None
                } else {
                    match step(middle, record.kind, read_back(record)) {
                        Ok(after) => Some(after),
                        Err(_) => None,
                    }
                },
            },
        }
    }
}

/// Whether the items can be written, and take a reader that reads them from `before` to
/// `after`.
pub open spec fn passes(items: Seq<Item>, before: ReadingView, after: ReadingView) -> bool {
    outcome(items) is Ok && run(before, items) == Some(after)
}

/// Reading one list of items after another is reading the second from where the first
/// has led.
pub proof fn lemma_run_concat(state: ReadingView, first: Seq<Item>, second: Seq<Item>)
    ensures
        run(state, first + second) == match run(state, first) {
            Some(middle) => run(middle, second),
            None => None::<ReadingView>,
        },
    decreases second.len(),
{
    if second.len() == 0 {
        assert(first + second =~= first);
    } else {
        assert((first + second).drop_last() =~= first + second.drop_last());
        assert((first + second).last() == second.last());
        lemma_run_concat(state, first, second.drop_last());
    }
}

/// Items that pass, followed by items that pass from where the first have led, pass.
pub proof fn lemma_passes_concat(
    first: Seq<Item>,
    second: Seq<Item>,
    before: ReadingView,
    middle: ReadingView,
    after: ReadingView,
)
    requires
        passes(first, before, middle),
        passes(second, middle, after),
    ensures
        passes(first + second, before, after),
{
    lemma_outcome_concat(first, second);
    lemma_run_concat(before, first, second);
}

/// One record that can be written, that does not end the library and that the reader
/// accepts, passes.
pub proof fn lemma_passes_one(record: RecordView, before: ReadingView, after: ReadingView)
    requires
        record_fault(record).is_none(),
        record.kind != GDSRecord::EndLib,
        step(before, record.kind, read_back(record)) == Ok::<ReadingView, ReadError>(after),
    ensures
        passes(seq![Item::Record(record)], before, after),
{
    let items = seq![Item::Record(record)];
    lemma_outcome_one(Item::Record(record));
    assert(items.drop_last() =~= Seq::<Item>::empty());
    assert(items.last() == Item::Record(record));
    assert(run(before, items.drop_last()) == Some(before));
}

/// A record that was written is read as it was written: at the place where its bytes
/// begin stands a record of its kind, with its payload read back, and the next record
/// begins where its bytes end.
#[verifier::spinoff_prover]
#[verifier::rlimit(50)]
pub proof fn lemma_frame(record: RecordView, prefix: Seq<u8>, suffix: Seq<u8>)
    requires
        record_fault(record).is_none(),
    ensures
        frame_at(prefix + record_bytes(record) + suffix, prefix.len() as int) == (Frame::Record {
            outcome: Ok((record.kind, read_back(record))),
            next: (prefix.len() + record_bytes(record).len()) as int,
        }),
        record_bytes(record).len() == 4 + data_bytes(record.data).len(),
{
    let payload = data_bytes(record.data);
    let bytes = prefix + record_bytes(record) + suffix;
    let position = prefix.len() as int;
    let size = 4 + payload.len();
    assert(size <= 4 + MAX_PAYLOAD);
    let header = be_u16(size as u16);
    assert(record_bytes(record).len() == size);
    assert(bytes[position] == header[0]);
    assert(bytes[position + 1] == header[1]);
    assert(u16_of(bytes[position], bytes[position + 1]) == size);
    assert(bytes[position + 2] == record.kind.code());
    assert(bytes[position + 3] == record.layout.code());
    assert(GDSRecord::is_code(record.kind.code()));
    lemma_code_names_one(record_of(record.kind.code()), record.kind);
    assert(record.layout.code() <= 6);
    if size > 4 {
        assert(bytes.subrange(position + 4, position + size) =~= payload);
    }
}

/// Reading the bytes of items that pass leads the reader from where it was to where
/// the items lead, and on to what follows them.
#[verifier::spinoff_prover]
#[verifier::rlimit(50)]
pub proof fn lemma_read_items(
    items: Seq<Item>,
    before: ReadingView,
    after: ReadingView,
    prefix: Seq<u8>,
    suffix: Seq<u8>,
)
    requires
        passes(items, before, after),
    ensures
        read_from(
            prefix + outcome(items)->Ok_0 + suffix,
            prefix.len() as int,
            before,
        ) == read_from(
            prefix + outcome(items)->Ok_0 + suffix,
            (prefix.len() + outcome(items)->Ok_0.len()) as int,
            after,
        ),
    decreases items.len(),
{
    let bytes = outcome(items)->Ok_0;
    let whole = prefix + bytes + suffix;
    if items.len() > 0 {
        let first = items.drop_last();
        let record = items.last()->Record_0;
        let middle = run(before, first)->Some_0;
        let early = outcome(first)->Ok_0;
        let late = record_bytes(record);
        assert(bytes == early + late);
        assert(whole =~= prefix + early + (late + suffix));
        lemma_read_items(first, before, middle, prefix, late + suffix);
        assert(whole =~= (prefix + early) + late + suffix);
        lemma_frame(record, prefix + early, suffix);
    }
}


/// Whether characters come back from a stream as they went in: whether their bytes fit
/// one record and do not end in a zero byte, which a reader would take for padding.
pub open spec fn storable(text: Seq<char>) -> bool {
    let bytes = encode_utf8(text);
    bytes.len() <= MAX_PAYLOAD && (bytes.len() == 0 || bytes[bytes.len() - 1] != 0)
}

/// Whether a number comes back from a stream as it went in: whether an eight-byte real
/// can hold it, and it is not negative zero, which is stored as zero.
pub open spec fn exact(value: Real) -> bool {
    representable(value) && value.bits != TWO_POW_63
}

/// Whether a layer or a data type fits the sixteen signed bits that a stream keeps.
pub open spec fn word_sized(value: i32) -> bool {
    -0x8000 <= value <= 0x7FFF
}

/// A record without a payload is read back without one.
pub proof fn lemma_back_plain(kind: GDSRecord)
    ensures
        read_back(plain(kind)) == DataView::Empty,
        record_fault(plain(kind)).is_none(),
{
}

/// A record of signed sixteen-bit numbers is read back as those numbers.
#[verifier::spinoff_prover]
#[verifier::rlimit(50)]
pub proof fn lemma_back_words(kind: GDSRecord, layout: GDSDataType, values: Seq<i16>)
    requires
        layout == GDSDataType::TwoByteSignedInteger || layout == GDSDataType::BitArray,
        0 < values.len() <= 16,
    ensures
        read_back(RecordView { kind, layout, data: DataView::I16(values) }) == DataView::I16(
            values,
        ),
        record_fault(RecordView { kind, layout, data: DataView::I16(values) }).is_none(),
{
    let record = RecordView { kind, layout, data: DataView::I16(values) };
    let payload = i16s_bytes(values);
    lemma_i16s_round_trip(values);
    assert(data_bytes(record.data) == payload);
    assert(payload.len() == 2 * values.len());
    assert(layout.code() == 1 || layout.code() == 2);
    assert(decoded(layout.code(), payload) == DataView::I16(i16s_of(payload)));
}

/// A record of one word is read back as that word, signed.
pub proof fn lemma_back_short(kind: GDSRecord, layout: GDSDataType, word: u16)
    requires
        layout == GDSDataType::TwoByteSignedInteger || layout == GDSDataType::BitArray,
    ensures
        read_back(short(kind, layout, word)) == DataView::I16(seq![signed16(word)]),
        record_fault(short(kind, layout, word)).is_none(),
{
    lemma_back_words(kind, layout, seq![signed16(word)]);
}

/// The points of the coordinates of a list of points are the points.
#[verifier::spinoff_prover]
pub proof fn lemma_points_back(points: Seq<Point>)
    ensures
        points_of(coordinates(points)) == points,
{
    let flat = coordinates(points);
    assert forall|i: int| 0 <= i < points.len() implies (Point { x: flat[2 * i], y: flat[2 * i + 1] })
        == points[i] by {
        assert((2 * i) / 2 == i);
        assert((2 * i + 1) / 2 == i);
    }
    assert(points_of(flat) =~= points);
}

/// A coordinate record is read back as the coordinates of its points.
#[verifier::spinoff_prover]
#[verifier::rlimit(50)]
pub proof fn lemma_back_xy(points: Seq<Point>)
    requires
        0 < points.len() <= MAX_POLYGON_POINTS,
    ensures
        read_back(xy_record(points)) == DataView::I32(coordinates(points)),
        record_fault(xy_record(points)).is_none(),
        xy_record(points).kind == GDSRecord::XY,
{
    lemma_i32s_round_trip(coordinates(points));
}

/// The word of eight bytes, most significant first, is the word that the bytes were
/// made of.
#[verifier::spinoff_prover]
#[verifier::rlimit(50)]
pub proof fn lemma_word_back(word: u64)
    ensures
        u64_of(be_u64(word)) == word,
{
    let whole = word as int;
    let q1 = whole / 0x100;
    let q2 = whole / 0x1_0000;
    let q3 = whole / 0x100_0000;
    let q4 = whole / 0x1_0000_0000;
    let q5 = whole / 0x100_0000_0000;
    let q6 = whole / 0x1_0000_0000_0000;
    let q7 = whole / 0x100_0000_0000_0000;
    assert(whole == q1 * 0x100 + whole % 0x100);
    assert(q2 == q1 / 0x100);
    assert(q1 == q2 * 0x100 + q1 % 0x100);
    assert(q3 == q2 / 0x100);
    assert(q2 == q3 * 0x100 + q2 % 0x100);
    assert(q4 == q3 / 0x100);
    assert(q3 == q4 * 0x100 + q3 % 0x100);
    assert(q5 == q4 / 0x100);
    assert(q4 == q5 * 0x100 + q4 % 0x100);
    assert(q6 == q5 / 0x100);
    assert(q5 == q6 * 0x100 + q5 % 0x100);
    assert(q7 == q6 / 0x100);
    assert(q6 == q7 * 0x100 + q6 % 0x100);
    assert(0 <= q7 < 0x100);
    let bytes = be_u64(word);
    assert(bytes[0] == q7);
    assert(bytes[1] == q6 % 0x100);
    assert(bytes[2] == q5 % 0x100);
    assert(bytes[3] == q4 % 0x100);
    assert(bytes[4] == q3 % 0x100);
    assert(bytes[5] == q2 % 0x100);
    assert(bytes[6] == q1 % 0x100);
    assert(bytes[7] == whole % 0x100);
}

/// The eight bytes of one number among the bytes of a list of numbers.
#[verifier::spinoff_prover]
pub proof fn lemma_real_chunk(values: Seq<Real>, place: int)
    requires
        0 <= place < values.len(),
    ensures
        reals_bytes(values).subrange(8 * place, 8 * place + 8) == be_u64(real_word(values[place])),
{
    let bytes = reals_bytes(values);
    let chunk = bytes.subrange(8 * place, 8 * place + 8);
    let word = be_u64(real_word(values[place]));
    assert forall|j: int| 0 <= j < 8 implies chunk[j] == word[j] by {
        let position = 8 * place + j;
        assert(position / 8 == place);
        assert(position % 8 == j);
        assert(chunk[j] == bytes[position]);
    }
    assert(chunk =~= word);
}

/// One number that comes back as it went in, read back from among the bytes of a list.
#[verifier::spinoff_prover]
pub proof fn lemma_real_back(values: Seq<Real>, place: int)
    requires
        0 <= place < values.len(),
        exact(values[place]),
    ensures
        reals_of(reals_bytes(values))[place] == values[place],
        reals_of(reals_bytes(values)).len() == values.len(),
{
    lemma_real_chunk(values, place);
    lemma_word_back(real_word(values[place]));
    lemma_real_round_trip(values[place]);
}

/// Numbers that come back as they went in are read back from their bytes.
#[verifier::spinoff_prover]
pub proof fn lemma_reals_back(values: Seq<Real>)
    requires
        forall|i: int| 0 <= i < values.len() ==> exact(#[trigger] values[i]),
    ensures
        reals_of(reals_bytes(values)) == values,
{
    let back = reals_of(reals_bytes(values));
    assert(back.len() == values.len());
    assert forall|i: int| 0 <= i < values.len() implies back[i] == values[i] by {
        lemma_real_back(values, i);
    }
    assert(back =~= values);
}

/// A record of numbers that come back as they went in is read back as those numbers.
#[verifier::spinoff_prover]
#[verifier::rlimit(50)]
pub proof fn lemma_back_reals(kind: GDSRecord, values: Seq<Real>)
    requires
        forall|i: int| 0 <= i < values.len() ==> exact(#[trigger] values[i]),
        0 < values.len() <= 8000,
    ensures
        read_back(
            RecordView { kind, layout: GDSDataType::EightByteReal, data: DataView::F64(values) },
        ) == DataView::F64(values),
        record_fault(
            RecordView { kind, layout: GDSDataType::EightByteReal, data: DataView::F64(values) },
        ).is_none(),
{
    let record = RecordView {
        kind,
        layout: GDSDataType::EightByteReal,
        data: DataView::F64(values),
    };
    lemma_reals_back(values);
    assert(data_bytes(record.data) == reals_bytes(values));
    assert(reals_bytes(values).len() == 8 * values.len());
    assert(record.layout.code() == 5);
    assert(decoded(5, reals_bytes(values)) == DataView::F64(reals_of(reals_bytes(values))));
    assert forall|i: int| 0 <= i < values.len() implies representable(#[trigger] values[i]) by {
        assert(exact(values[i]));
    }
}

/// A record of one number that comes back as it went in is read back as that number.
pub proof fn lemma_back_number(kind: GDSRecord, value: Real)
    requires
        exact(value),
    ensures
        read_back(number(kind, value)) == DataView::F64(seq![value]),
        record_fault(number(kind, value)).is_none(),
{
    let values = seq![value];
    assert(values[0] == value);
    lemma_back_reals(kind, values);
}

/// A record of characters that come back as they went in is read back as those
/// characters, or without a payload where there are none.
#[verifier::spinoff_prover]
#[verifier::rlimit(50)]
pub proof fn lemma_back_characters(kind: GDSRecord, text: Seq<char>)
    requires
        storable(text),
    ensures
        read_back(characters(kind, text)) == if encode_utf8(text).len() == 0 {
            DataView::Empty
        } else {
            DataView::Str(text)
        },
        record_fault(characters(kind, text)).is_none(),
{
    let bytes = encode_utf8(text);
    if bytes.len() > 0 {
        assert(unpadded(padded(bytes)) =~= bytes);
        encode_utf8_valid_utf8(text);
        encode_utf8_decode_utf8(text);
    }
}

/// Whether a cell is open and no element.
pub open spec fn idle(state: ReadingView) -> bool {
    state.cell is Some && state.polygon is None && state.path is None && state.text is None
        && state.reference is None
}

/// A record without a payload passes, and leads where its kind leads.
pub proof fn lemma_pass_plain(kind: GDSRecord, before: ReadingView, after: ReadingView)
    requires
        kind != GDSRecord::EndLib,
        step(before, kind, DataView::Empty) == Ok::<ReadingView, ReadError>(after),
    ensures
        passes(seq![Item::Record(plain(kind))], before, after),
{
    lemma_back_plain(kind);
    lemma_passes_one(plain(kind), before, after);
}

/// The record that opens a polygon passes.
pub proof fn lemma_pass_boundary(state: ReadingView)
    ensures
        passes(
            seq![Item::Record(plain(GDSRecord::Boundary))],
            state,
            ReadingView { polygon: Some(blank_polygon()), ..state },
        ),
{
    reveal(step);
    lemma_pass_plain(
        GDSRecord::Boundary,
        state,
        ReadingView { polygon: Some(blank_polygon()), ..state },
    );
}

/// The record that opens a path passes.
pub proof fn lemma_pass_path(state: ReadingView)
    ensures
        passes(
            seq![Item::Record(plain(GDSRecord::Path))],
            state,
            ReadingView { path: Some(blank_path()), ..state },
        ),
{
    reveal(step);
    lemma_pass_plain(GDSRecord::Path, state, ReadingView { path: Some(blank_path()), ..state });
}

/// The record that opens a text passes.
pub proof fn lemma_pass_text(state: ReadingView)
    ensures
        passes(
            seq![Item::Record(plain(GDSRecord::Text))],
            state,
            ReadingView { text: Some(blank_text()), ..state },
        ),
{
    reveal(step);
    lemma_pass_plain(GDSRecord::Text, state, ReadingView { text: Some(blank_text()), ..state });
}

/// The record that opens an array passes.
pub proof fn lemma_pass_aref(state: ReadingView)
    ensures
        passes(
            seq![Item::Record(plain(GDSRecord::ARef))],
            state,
            ReadingView { reference: Some(blank_reference()), ..state },
        ),
{
    reveal(step);
    lemma_pass_plain(
        GDSRecord::ARef,
        state,
        ReadingView { reference: Some(blank_reference()), ..state },
    );
}

/// The record that ends an element passes.
pub proof fn lemma_pass_endel(state: ReadingView)
    ensures
        passes(seq![Item::Record(plain(GDSRecord::EndEl))], state, with_element_closed(state)),
{
    reveal(step);
    lemma_pass_plain(GDSRecord::EndEl, state, with_element_closed(state));
}

/// The record of a layer that fits sixteen signed bits passes.
pub proof fn lemma_pass_layer(state: ReadingView, layer: i32)
    requires
        word_sized(layer),
    ensures
        passes(
            seq![
                Item::Record(
                    short(
                        GDSRecord::Layer,
                        GDSDataType::TwoByteSignedInteger,
                        low_word(layer as int),
                    ),
                ),
            ],
            state,
            with_layer(state, layer),
        ),
{
    let record = short(GDSRecord::Layer, GDSDataType::TwoByteSignedInteger, low_word(layer as int));
    lemma_back_short(GDSRecord::Layer, GDSDataType::TwoByteSignedInteger, low_word(layer as int));
    lemma_low_word_signed(layer as int);
    assert(seq![signed16(low_word(layer as int))][0] == layer);
    assert(step(state, GDSRecord::Layer, read_back(record)) == Ok::<ReadingView, ReadError>(
        with_layer(state, layer),
    )) by {
        reveal(step);
    }
    lemma_passes_one(record, state, with_layer(state, layer));
}

/// The record of a data type that fits sixteen signed bits passes.
pub proof fn lemma_pass_data_type(state: ReadingView, data_type: i32)
    requires
        word_sized(data_type),
    ensures
        passes(
            seq![
                Item::Record(
                    short(
                        GDSRecord::DataType,
                        GDSDataType::TwoByteSignedInteger,
                        low_word(data_type as int),
                    ),
                ),
            ],
            state,
            with_data_type(state, data_type),
        ),
{
    let record = short(
        GDSRecord::DataType,
        GDSDataType::TwoByteSignedInteger,
        low_word(data_type as int),
    );
    lemma_back_short(
        GDSRecord::DataType,
        GDSDataType::TwoByteSignedInteger,
        low_word(data_type as int),
    );
    lemma_low_word_signed(data_type as int);
    assert(seq![signed16(low_word(data_type as int))][0] == data_type);
    assert(step(state, GDSRecord::DataType, read_back(record)) == Ok::<ReadingView, ReadError>(
        with_data_type(state, data_type),
    )) by {
        reveal(step);
    }
    lemma_passes_one(record, state, with_data_type(state, data_type));
}

/// What a reader does with coordinates.
pub proof fn lemma_step_xy(state: ReadingView, values: Seq<i32>)
    ensures
        step(state, GDSRecord::XY, DataView::I32(values)) == Ok::<ReadingView, ReadError>(
            with_points(state, points_of(values)),
        ),
{
    reveal(step);
}

/// What a reader that has a reference open does with the numbers of columns and rows.
pub proof fn lemma_step_colrow(state: ReadingView, values: Seq<i16>)
    requires
        state.reference is Some,
        values.len() == 2,
    ensures
        step(state, GDSRecord::ColRow, DataView::I16(values)) == Ok::<ReadingView, ReadError>(
            ReadingView {
                reference: Some(
                    ReferenceView {
                        grid: Grid {
                            columns: widened(values[0]),
                            rows: widened(values[1]),
                            ..state.reference->Some_0.grid
                        },
                        ..state.reference->Some_0
                    },
                ),
                ..state
            },
        ),
{
    reveal(step);
}

/// One coordinate record passes, and takes its points to what is open.
#[verifier::spinoff_prover]
#[verifier::rlimit(50)]
pub proof fn lemma_pass_xy(state: ReadingView, points: Seq<Point>)
    requires
        0 < points.len() <= MAX_POLYGON_POINTS,
    ensures
        passes(seq![Item::Record(xy_record(points))], state, with_points(state, points)),
        xy_records(points) == seq![xy_record(points)],
        as_items(xy_records(points)) == seq![Item::Record(xy_record(points))],
{
    lemma_back_xy(points);
    lemma_points_back(points);
    lemma_as_items_one(xy_record(points));
    lemma_step_xy(state, coordinates(points));
    lemma_passes_one(xy_record(points), state, with_points(state, points));
}

/// Points taken in two goes are taken as in one, by a polygon or a path.
pub proof fn lemma_points_twice(state: ReadingView, first: Seq<Point>, second: Seq<Point>)
    requires
        state.polygon is Some || state.path is Some,
    ensures
        with_points(with_points(state, first), second) == with_points(state, first + second),
{
    if let Some(polygon) = state.polygon {
        assert((polygon.points + first) + second =~= polygon.points + (first + second));
    } else if let Some(path) = state.path {
        assert((path.points + first) + second =~= path.points + (first + second));
    }
}

/// Coordinate records pass a reader that has a polygon or a path open, and add their
/// points to it in order, however many records they are.
#[verifier::spinoff_prover]
#[verifier::rlimit(50)]
pub proof fn lemma_xy_passes(state: ReadingView, points: Seq<Point>)
    requires
        state.polygon is Some || state.path is Some,
    ensures
        passes(as_items(xy_records(points)), state, with_points(state, points)),
    decreases points.len(),
{
    if points.len() == 0 {
        assert(as_items(xy_records(points)) =~= Seq::<Item>::empty());
        lemma_points_twice(state, Seq::empty(), Seq::empty());
        if let Some(polygon) = state.polygon {
            assert(polygon.points + points =~= polygon.points);
        } else if let Some(path) = state.path {
            assert(path.points + points =~= path.points);
        }
    } else if points.len() <= MAX_POLYGON_POINTS {
        lemma_pass_xy(state, points);
    } else {
        let chunk = points.take(MAX_POLYGON_POINTS as int);
        let rest = points.skip(MAX_POLYGON_POINTS as int);
        let middle = with_points(state, chunk);
        lemma_pass_xy(state, chunk);
        lemma_xy_passes(middle, rest);
        lemma_as_items_one(xy_record(chunk));
        lemma_as_items_concat(seq![xy_record(chunk)], xy_records(rest));
        lemma_passes_concat(
            seq![Item::Record(xy_record(chunk))],
            as_items(xy_records(rest)),
            state,
            middle,
            with_points(middle, rest),
        );
        assert(chunk + rest =~= points);
        lemma_points_twice(state, chunk, rest);
    }
}

/// Whether a polygon comes back from a stream as it went in.
pub open spec fn clean_polygon(polygon: PolygonView) -> bool {
    word_sized(polygon.layer) && word_sized(polygon.data_type)
}

/// Whether a path comes back from a stream as it went in.
pub open spec fn clean_path(path: PathView) -> bool {
    word_sized(path.layer) && word_sized(path.data_type) && path.points.len() >= 2
}

/// Whether a text comes back from a stream as it went in.
pub open spec fn clean_text(text: TextView) -> bool {
    word_sized(text.layer) && storable(text.text) && exact(text.angle) && exact(
        text.magnification,
    )
}

/// Whether a reference comes back from a stream as it went in: it places a cell, and
/// its grid has no more columns or rows than sixteen bits count.
pub open spec fn clean_reference(reference: ReferenceView) -> bool {
    &&& reference.instance matches InstanceView::Cell(name) && storable(name)
    &&& exact(reference.grid.angle)
    &&& exact(reference.grid.magnification)
    &&& reference.grid.columns <= 0xFFFF
    &&& reference.grid.rows <= 0xFFFF
}

/// The reader's state after a polygon has joined the open cell.
pub open spec fn joined_polygon(state: ReadingView, polygon: PolygonView) -> ReadingView {
    ReadingView {
        cell: Some(
            CellView { polygons: state.cell->Some_0.polygons.push(polygon), ..state.cell->Some_0 },
        ),
        ..state
    }
}

/// The reader's state after a path has joined the open cell.
pub open spec fn joined_path(state: ReadingView, path: PathView) -> ReadingView {
    ReadingView {
        cell: Some(CellView { paths: state.cell->Some_0.paths.push(path), ..state.cell->Some_0 }),
        ..state
    }
}

/// The reader's state after a text has joined the open cell.
pub open spec fn joined_text(state: ReadingView, text: TextView) -> ReadingView {
    ReadingView {
        cell: Some(CellView { texts: state.cell->Some_0.texts.push(text), ..state.cell->Some_0 }),
        ..state
    }
}

/// The reader's state after a reference has joined the open cell.
pub open spec fn joined_reference(state: ReadingView, reference: ReferenceView) -> ReadingView {
    ReadingView {
        cell: Some(
            CellView {
                references: state.cell->Some_0.references.push(reference),
                ..state.cell->Some_0
            },
        ),
        ..state
    }
}

/// The records of a polygon that comes back as it went in take a reader with an open
/// cell to the same cell with the polygon added.
#[verifier::spinoff_prover]
#[verifier::rlimit(50)]
pub proof fn lemma_polygon_passes(state: ReadingView, polygon: PolygonView)
    requires
        idle(state),
        clean_polygon(polygon),
    ensures
        passes(Polygon::items(polygon), state, joined_polygon(state, polygon)),
{
    let a = seq![Item::Record(plain(GDSRecord::Boundary))];
    let b = seq![
        Item::Record(
            short(
                GDSRecord::Layer,
                GDSDataType::TwoByteSignedInteger,
                low_word(polygon.layer as int),
            ),
        ),
    ];
    let c = seq![
        Item::Record(
            short(
                GDSRecord::DataType,
                GDSDataType::TwoByteSignedInteger,
                low_word(polygon.data_type as int),
            ),
        ),
    ];
    let d = as_items(xy_records(polygon.points));
    let e = seq![Item::Record(plain(GDSRecord::EndEl))];
    let one = ReadingView { polygon: Some(blank_polygon()), ..state };
    let two = with_layer(one, polygon.layer);
    let three = with_data_type(two, polygon.data_type);
    let four = with_points(three, polygon.points);
    let five = with_element_closed(four);
    lemma_pass_boundary(state);
    lemma_pass_layer(one, polygon.layer);
    lemma_pass_data_type(two, polygon.data_type);
    lemma_xy_passes(three, polygon.points);
    lemma_pass_endel(four);
    lemma_passes_concat(a, b, state, one, two);
    lemma_passes_concat(a + b, c, state, two, three);
    lemma_passes_concat(a + b + c, d, state, three, four);
    lemma_passes_concat(a + b + c + d, e, state, four, five);
    assert(Polygon::items(polygon) =~= a + b + c + d + e);
    assert(Seq::<Point>::empty() + polygon.points =~= polygon.points);
    assert(four.polygon == Some(polygon));
    assert(five == joined_polygon(state, polygon));
}

/// The record of the end-cap style of a path passes.
pub proof fn lemma_pass_path_type(state: ReadingView, style: crate::path::PathType)
    requires
        state.path is Some,
    ensures
        passes(
            seq![
                Item::Record(
                    short(
                        GDSRecord::PathType,
                        GDSDataType::TwoByteSignedInteger,
                        low_word(style.code() as int),
                    ),
                ),
            ],
            state,
            ReadingView {
                path: Some(PathView { path_type: Some(style), ..state.path->Some_0 }),
                ..state
            },
        ),
{
    let code = style.code();
    let record = short(
        GDSRecord::PathType,
        GDSDataType::TwoByteSignedInteger,
        low_word(code as int),
    );
    let after = ReadingView {
        path: Some(PathView { path_type: Some(style), ..state.path->Some_0 }),
        ..state
    };
    lemma_back_short(GDSRecord::PathType, GDSDataType::TwoByteSignedInteger, low_word(code as int));
    lemma_low_word_signed(code as int);
    assert(seq![signed16(low_word(code as int))][0] == code);
    assert(style_of(code as i16) == style);
    assert(step(state, GDSRecord::PathType, read_back(record)) == Ok::<ReadingView, ReadError>(
        after,
    )) by {
        reveal(step);
    }
    lemma_passes_one(record, state, after);
}

/// The record of the width of a path passes.
pub proof fn lemma_pass_width(state: ReadingView, width: i32)
    requires
        state.path is Some,
    ensures
        passes(
            seq![Item::Record(width_record(width))],
            state,
            ReadingView {
                path: Some(PathView { width: Some(width), ..state.path->Some_0 }),
                ..state
            },
        ),
{
    let record = width_record(width);
    let after = ReadingView {
        path: Some(PathView { width: Some(width), ..state.path->Some_0 }),
        ..state
    };
    lemma_i32s_round_trip(seq![width]);
    assert(seq![width][0] == width);
    assert(step(state, GDSRecord::Width, read_back(record)) == Ok::<ReadingView, ReadError>(
        after,
    )) by {
        reveal(step);
    }
    lemma_passes_one(record, state, after);
}

/// The records of a path that comes back as it went in take a reader with an open
/// cell to the same cell with the path added.
#[verifier::spinoff_prover]
#[verifier::rlimit(50)]
pub proof fn lemma_path_passes(state: ReadingView, path: PathView)
    requires
        idle(state),
        clean_path(path),
    ensures
        passes(Path::items(path), state, joined_path(state, path)),
{
    let a = seq![Item::Record(plain(GDSRecord::Path))];
    let b = seq![
        Item::Record(
            short(GDSRecord::Layer, GDSDataType::TwoByteSignedInteger, low_word(path.layer as int)),
        ),
    ];
    let c = seq![
        Item::Record(
            short(
                GDSRecord::DataType,
                GDSDataType::TwoByteSignedInteger,
                low_word(path.data_type as int),
            ),
        ),
    ];
    let ends = match path.path_type {
        Some(style) => seq![
            short(
                GDSRecord::PathType,
                GDSDataType::TwoByteSignedInteger,
                low_word(style.code() as int),
            ),
        ],
        None => Seq::<RecordView>::empty(),
    };
    let breadth = match path.width {
        Some(width) => seq![width_record(width)],
        None => Seq::<RecordView>::empty(),
    };
    let d = as_items(ends);
    let e = as_items(breadth);
    let f = as_items(xy_records(path.points));
    let g = seq![Item::Record(plain(GDSRecord::EndEl))];
    let one = ReadingView { path: Some(blank_path()), ..state };
    let two = with_layer(one, path.layer);
    let three = with_data_type(two, path.data_type);
    let four = ReadingView {
        path: Some(PathView { path_type: path.path_type, ..three.path->Some_0 }),
        ..three
    };
    let five = ReadingView {
        path: Some(PathView { width: path.width, ..four.path->Some_0 }),
        ..four
    };
    let six = with_points(five, path.points);
    let seven = with_element_closed(six);
    lemma_pass_path(state);
    lemma_pass_layer(one, path.layer);
    lemma_pass_data_type(two, path.data_type);
    match path.path_type {
        Some(style) => {
            lemma_pass_path_type(three, style);
            lemma_as_items_one(ends[0]);
        },
        None => {
            assert(d =~= Seq::<Item>::empty());
            assert(four == three);
        },
    }
    match path.width {
        Some(width) => {
            lemma_pass_width(four, width);
            lemma_as_items_one(width_record(width));
        },
        None => {
            assert(e =~= Seq::<Item>::empty());
            assert(five == four);
        },
    }
    lemma_xy_passes(five, path.points);
    lemma_pass_endel(six);
    lemma_passes_concat(a, b, state, one, two);
    lemma_passes_concat(a + b, c, state, two, three);
    lemma_passes_concat(a + b + c, d, state, three, four);
    lemma_passes_concat(a + b + c + d, e, state, four, five);
    lemma_passes_concat(a + b + c + d + e, f, state, five, six);
    lemma_passes_concat(a + b + c + d + e + f, g, state, six, seven);
    assert(as_items(path_records(path)) =~= a + b + c + d + e + f + g);
    assert(Seq::<Point>::empty() + path.points =~= path.points);
    assert(six.path == Some(path));
    assert(seven == joined_path(state, path));
}

/// The state of a reader after the records of a transformation: the mirror where there
/// are any records, the magnification unless it is one, the angle unless it is zero.
pub open spec fn transformed(
    state: ReadingView,
    angle: Real,
    magnification: Real,
    x_reflection: bool,
) -> ReadingView {
    let first = if angle.zero_spec() && magnification.bits == ONE_BITS && !x_reflection {
        state
    } else {
        with_mirror(state, x_reflection)
    };
    let second = if magnification.bits == ONE_BITS {
        first
    } else {
        with_magnification(first, magnification)
    };
    if angle.zero_spec() {
        second
    } else {
        with_angle(second, angle)
    }
}

/// The record of the transform flags passes.
pub proof fn lemma_pass_strans(state: ReadingView, x_reflection: bool)
    ensures
        passes(
            seq![
                Item::Record(
                    short(
                        GDSRecord::STrans,
                        GDSDataType::BitArray,
                        if x_reflection {
                            0x8000u16
                        } else {
                            0u16
                        },
                    ),
                ),
            ],
            state,
            with_mirror(state, x_reflection),
        ),
{
    let flags: u16 = if x_reflection {
        0x8000u16
    } else {
        0u16
    };
    let record = short(GDSRecord::STrans, GDSDataType::BitArray, flags);
    lemma_back_short(GDSRecord::STrans, GDSDataType::BitArray, flags);
    assert(seq![signed16(flags)][0] == signed16(flags));
    assert((signed16(flags) < 0) == x_reflection);
    assert(step(state, GDSRecord::STrans, read_back(record)) == Ok::<ReadingView, ReadError>(
        with_mirror(state, x_reflection),
    )) by {
        reveal(step);
    }
    lemma_passes_one(record, state, with_mirror(state, x_reflection));
}

/// The record of a magnification that comes back as it went in passes.
pub proof fn lemma_pass_mag(state: ReadingView, magnification: Real)
    requires
        exact(magnification),
    ensures
        passes(
            seq![Item::Record(number(GDSRecord::Mag, magnification))],
            state,
            with_magnification(state, magnification),
        ),
{
    let record = number(GDSRecord::Mag, magnification);
    lemma_back_number(GDSRecord::Mag, magnification);
    assert(seq![magnification][0] == magnification);
    assert(step(state, GDSRecord::Mag, read_back(record)) == Ok::<ReadingView, ReadError>(
        with_magnification(state, magnification),
    )) by {
        reveal(step);
    }
    lemma_passes_one(record, state, with_magnification(state, magnification));
}

/// The record of an angle that comes back as it went in passes.
pub proof fn lemma_pass_angle(state: ReadingView, angle: Real)
    requires
        exact(angle),
    ensures
        passes(
            seq![Item::Record(number(GDSRecord::Angle, angle))],
            state,
            with_angle(state, angle),
        ),
{
    let record = number(GDSRecord::Angle, angle);
    lemma_back_number(GDSRecord::Angle, angle);
    assert(seq![angle][0] == angle);
    assert(step(state, GDSRecord::Angle, read_back(record)) == Ok::<ReadingView, ReadError>(
        with_angle(state, angle),
    )) by {
        reveal(step);
    }
    lemma_passes_one(record, state, with_angle(state, angle));
}

/// The records of a transformation whose numbers come back as they went in pass, and
/// lead to the state with the transformation taken in.
#[verifier::spinoff_prover]
#[verifier::rlimit(50)]
pub proof fn lemma_transformation_passes(
    state: ReadingView,
    angle: Real,
    magnification: Real,
    x_reflection: bool,
)
    requires
        exact(angle),
        exact(magnification),
    ensures
        passes(
            as_items(transformation_records(angle, magnification, x_reflection)),
            state,
            transformed(state, angle, magnification, x_reflection),
        ),
{
    let records = transformation_records(angle, magnification, x_reflection);
    if angle.zero_spec() && magnification.bits == ONE_BITS && !x_reflection {
        assert(as_items(records) =~= Seq::<Item>::empty());
    } else {
        let flags: u16 = if x_reflection {
            0x8000u16
        } else {
            0u16
        };
        let a = seq![Item::Record(short(GDSRecord::STrans, GDSDataType::BitArray, flags))];
        let one = with_mirror(state, x_reflection);
        lemma_pass_strans(state, x_reflection);
        let two = if magnification.bits == ONE_BITS {
            one
        } else {
            with_magnification(one, magnification)
        };
        let b = if magnification.bits == ONE_BITS {
            Seq::<Item>::empty()
        } else {
            seq![Item::Record(number(GDSRecord::Mag, magnification))]
        };
        if magnification.bits != ONE_BITS {
            lemma_pass_mag(one, magnification);
        }
        let three = if angle.zero_spec() {
            two
        } else {
            with_angle(two, angle)
        };
        let c = if angle.zero_spec() {
            Seq::<Item>::empty()
        } else {
            seq![Item::Record(number(GDSRecord::Angle, angle))]
        };
        if !angle.zero_spec() {
            lemma_pass_angle(two, angle);
        }
        lemma_passes_concat(a, b, state, one, two);
        lemma_passes_concat(a + b, c, state, two, three);
        assert(as_items(records) =~= a + b + c);
    }
}

/// Characters whose bytes are none are none.
pub proof fn lemma_no_bytes_no_text(text: Seq<char>)
    requires
        encode_utf8(text).len() == 0,
    ensures
        text == Seq::<char>::empty(),
{
    encode_utf8_decode_utf8(text);
    assert(decode_utf8(encode_utf8(text)) =~= Seq::<char>::empty());
}

/// The record of a text type passes and changes nothing.
pub proof fn lemma_pass_text_type(state: ReadingView)
    ensures
        passes(
            seq![Item::Record(short(GDSRecord::TextType, GDSDataType::TwoByteSignedInteger, 0))],
            state,
            state,
        ),
{
    let record = short(GDSRecord::TextType, GDSDataType::TwoByteSignedInteger, 0);
    lemma_back_short(GDSRecord::TextType, GDSDataType::TwoByteSignedInteger, 0);
    assert(step(state, GDSRecord::TextType, read_back(record)) == Ok::<ReadingView, ReadError>(
        state,
    )) by {
        reveal(step);
    }
    lemma_passes_one(record, state, state);
}

/// The record of the anchors of a text passes.
#[verifier::rlimit(50)]
pub proof fn lemma_pass_presentation(
    state: ReadingView,
    vertical: crate::text::VerticalPresentation,
    horizontal: crate::text::HorizontalPresentation,
)
    requires
        state.text is Some,
    ensures
        passes(
            seq![
                Item::Record(
                    short(
                        GDSRecord::Presentation,
                        GDSDataType::BitArray,
                        presentation_flags(vertical, horizontal) as u16,
                    ),
                ),
            ],
            state,
            ReadingView {
                text: Some(
                    TextView {
                        vertical_presentation: vertical,
                        horizontal_presentation: horizontal,
                        ..state.text->Some_0
                    },
                ),
                ..state
            },
        ),
{
    let flags = presentation_flags(vertical, horizontal) as u16;
    let record = short(GDSRecord::Presentation, GDSDataType::BitArray, flags);
    let after = ReadingView {
        text: Some(
            TextView {
                vertical_presentation: vertical,
                horizontal_presentation: horizontal,
                ..state.text->Some_0
            },
        ),
        ..state
    };
    lemma_back_short(GDSRecord::Presentation, GDSDataType::BitArray, flags);
    assert(seq![signed16(flags)][0] == signed16(flags));
    assert(unsigned16(signed16(flags)) == flags);
    assert(vertical_of(flags) == vertical);
    assert(horizontal_of(flags) == horizontal);
    assert(step(state, GDSRecord::Presentation, read_back(record)) == Ok::<
        ReadingView,
        ReadError,
    >(after)) by {
        reveal(step);
    }
    lemma_passes_one(record, state, after);
}

/// The record of the characters of a text passes.
#[verifier::rlimit(50)]
pub proof fn lemma_pass_string(state: ReadingView, label: Seq<char>)
    requires
        state.text is Some,
        state.text->Some_0.text == Seq::<char>::empty(),
        storable(label),
    ensures
        passes(
            seq![Item::Record(characters(GDSRecord::String, label))],
            state,
            ReadingView { text: Some(TextView { text: label, ..state.text->Some_0 }), ..state },
        ),
{
    let record = characters(GDSRecord::String, label);
    let after = ReadingView {
        text: Some(TextView { text: label, ..state.text->Some_0 }),
        ..state
    };
    lemma_back_characters(GDSRecord::String, label);
    if encode_utf8(label).len() == 0 {
        lemma_no_bytes_no_text(label);
        assert(after == state);
    }
    assert(step(state, GDSRecord::String, read_back(record)) == Ok::<ReadingView, ReadError>(
        after,
    )) by {
        reveal(step);
    }
    lemma_passes_one(record, state, after);
}

/// The records of a text that comes back as it went in take a reader with an open cell
/// to the same cell with the text added.
#[verifier::spinoff_prover]
#[verifier::rlimit(50)]
pub proof fn lemma_text_passes(state: ReadingView, text: TextView)
    requires
        idle(state),
        clean_text(text),
    ensures
        passes(Text::items(text), state, joined_text(state, text)),
{
    let flags = presentation_flags(text.vertical_presentation, text.horizontal_presentation) as u16;
    let a = seq![Item::Record(plain(GDSRecord::Text))];
    let b = seq![
        Item::Record(
            short(GDSRecord::Layer, GDSDataType::TwoByteSignedInteger, low_word(text.layer as int)),
        ),
    ];
    let c = seq![Item::Record(short(GDSRecord::TextType, GDSDataType::TwoByteSignedInteger, 0))];
    let d = seq![Item::Record(short(GDSRecord::Presentation, GDSDataType::BitArray, flags))];
    let e = as_items(transformation_records(text.angle, text.magnification, text.x_reflection));
    let f = as_items(xy_records(seq![text.origin]));
    let g = seq![Item::Record(characters(GDSRecord::String, text.text))];
    let h = seq![Item::Record(plain(GDSRecord::EndEl))];
    let one = ReadingView { text: Some(blank_text()), ..state };
    let two = with_layer(one, text.layer);
    let four = ReadingView {
        text: Some(
            TextView {
                vertical_presentation: text.vertical_presentation,
                horizontal_presentation: text.horizontal_presentation,
                ..two.text->Some_0
            },
        ),
        ..two
    };
    let five = transformed(four, text.angle, text.magnification, text.x_reflection);
    let six = with_points(five, seq![text.origin]);
    let seven = ReadingView { text: Some(TextView { text: text.text, ..six.text->Some_0 }), ..six };
    let eight = with_element_closed(seven);
    lemma_pass_text(state);
    lemma_pass_layer(one, text.layer);
    lemma_pass_text_type(two);
    lemma_pass_presentation(two, text.vertical_presentation, text.horizontal_presentation);
    lemma_transformation_passes(four, text.angle, text.magnification, text.x_reflection);
    let origin = seq![text.origin];
    lemma_pass_xy(five, origin);
    assert(origin[0] == text.origin);
    assert(six.text->Some_0.text == Seq::<char>::empty());
    lemma_pass_string(six, text.text);
    lemma_pass_endel(seven);
    lemma_passes_concat(a, b, state, one, two);
    lemma_passes_concat(a + b, c, state, two, two);
    lemma_passes_concat(a + b + c, d, state, two, four);
    lemma_passes_concat(a + b + c + d, e, state, four, five);
    lemma_passes_concat(a + b + c + d + e, f, state, five, six);
    lemma_passes_concat(a + b + c + d + e + f, g, state, six, seven);
    lemma_passes_concat(a + b + c + d + e + f + g, h, state, seven, eight);
    assert(as_items(text_records(text)) =~= a + b + c + d + e + f + g + h);
    assert(seven.text == Some(text));
    assert(eight == joined_text(state, text));
}

/// The reader's state with other cells in its library than it has read.
pub open spec fn among(state: ReadingView, cells: Seq<CellView>) -> ReadingView {
    ReadingView { library: LibraryView { cells, ..state.library }, ..state }
}

/// But for the record that ends a cell, what a record does to the reader does not depend
/// on the cells that were read before it: with other cells in the library the same
/// record is refused for the same reason, or leaves the same state with those other
/// cells. A reference therefore takes the name that its record gives it whether or not
/// a cell of that name was read yet, and a cell that is defined later in the stream than
/// a reference to it is read like any other.
#[verifier::rlimit(50)]
#[verifier::spinoff_prover]
pub proof fn lemma_cells_do_not_matter(
    state: ReadingView,
    cells: Seq<CellView>,
    kind: GDSRecord,
    data: DataView,
)
    requires
        kind != GDSRecord::EndStr,
    ensures
        step(among(state, cells), kind, data) == match step(state, kind, data) {
            Ok(next) => Ok::<ReadingView, ReadError>(among(next, cells)),
            Err(error) => Err(error),
        },
{
    reveal(step);
}

/// No record but the one that ends a cell changes the cells that were read, and that
/// one puts the open cell among them, in the place of a cell of its name where there is
/// one: a cell that a reference names may be read before the reference or after it, and
/// is found under its name in the end all the same.
#[verifier::rlimit(50)]
#[verifier::spinoff_prover]
pub proof fn lemma_cells_stay(state: ReadingView, kind: GDSRecord, data: DataView)
    requires
        step(state, kind, data) is Ok,
    ensures
        step(state, kind, data)->Ok_0.library.cells == if kind == GDSRecord::EndStr
            && state.cell is Some {
            placed(state.library.cells, state.cell->Some_0)
        } else {
            state.library.cells
        },
{
    reveal(step);
}

/// A cell put among cells leaves every name that they held among them, and every cell
/// of another name as it was.
pub proof fn lemma_placed_keeps(cells: Seq<CellView>, cell: CellView, name: Seq<char>)
    ensures
        has_name(cells, name) ==> has_name(placed(cells, cell), name),
        has_name(placed(cells, cell), cell.name),
        has_name(cells, name) && name != cell.name ==> exists|k: int|
            0 <= k < placed(cells, cell).len() && #[trigger] placed(cells, cell)[k] == cells[place_of(
                cells,
                name,
            )],
{
    let after = placed(cells, cell);
    crate::library::lemma_place_of(cells, cell.name);
    crate::library::lemma_place_of(cells, name);
    if has_name(cells, cell.name) {
        let at = place_of(cells, cell.name);
        assert(after[at] == cell);
        if has_name(cells, name) {
            let found = place_of(cells, name);
            if found == at {
                assert(after[at].name == name);
            } else {
                assert(after[found] == cells[found]);
            }
        }
    } else {
        assert(after[cells.len() as int] == cell);
        if has_name(cells, name) {
            let found = place_of(cells, name);
            assert(after[found] == cells[found]);
        }
    }
}

/// A record of a kind that the format does not know is passed over, whatever it holds:
/// the stream is read as if it began behind that record. Only a record that declares
/// more bytes than are left is refused for it.
pub proof fn lemma_unknown_passed_over(bytes: Seq<u8>, position: int, state: ReadingView)
    requires
        0 <= position,
        position + 4 <= bytes.len(),
        !GDSRecord::is_code(bytes[position + 2]),
        position + u16_of(bytes[position], bytes[position + 1]) <= bytes.len(),
    ensures
        read_from(bytes, position, state) == read_from(
            bytes,
            if u16_of(bytes[position], bytes[position + 1]) > 4 {
                position + u16_of(bytes[position], bytes[position + 1])
            } else {
                position + 4
            },
            state,
        ),
{
}

/// A name under which a cell was read stays a name of a cell, whatever is read after
/// it: a reference finds the cell that it names whether the cell was read before the
/// reference or after it, as long as the cell is read at all.
pub proof fn lemma_names_stay(state: ReadingView, items: Seq<Item>, name: Seq<char>)
    requires
        run(state, items) is Some,
        has_name(state.library.cells, name),
    ensures
        has_name(run(state, items)->Some_0.library.cells, name),
    decreases items.len(),
{
    if items.len() > 0 {
        lemma_names_stay(state, items.drop_last(), name);
        let middle = run(state, items.drop_last())->Some_0;
        match items.last() {
            Item::Record(record) => {
                lemma_cells_stay(middle, record.kind, read_back(record));
                if record.kind == GDSRecord::EndStr && middle.cell is Some {
                    lemma_placed_keeps(middle.library.cells, middle.cell->Some_0, name);
                }
            },
            Item::Fault(_) => {},
        }
    }
}

/// The record of the name of the cell that a reference places passes.
#[verifier::rlimit(50)]
pub proof fn lemma_pass_sname(state: ReadingView, name: Seq<char>)
    requires
        state.reference is Some,
        state.reference->Some_0.instance == InstanceView::Cell(Seq::<char>::empty()),
        storable(name),
    ensures
        passes(
            seq![Item::Record(characters(GDSRecord::SName, name))],
            state,
            ReadingView {
                reference: Some(
                    ReferenceView { instance: InstanceView::Cell(name), ..state.reference->Some_0 },
                ),
                ..state
            },
        ),
{
    let record = characters(GDSRecord::SName, name);
    let after = ReadingView {
        reference: Some(
            ReferenceView { instance: InstanceView::Cell(name), ..state.reference->Some_0 },
        ),
        ..state
    };
    lemma_back_characters(GDSRecord::SName, name);
    if encode_utf8(name).len() == 0 {
        lemma_no_bytes_no_text(name);
        assert(after == state);
    }
    assert(step(state, GDSRecord::SName, read_back(record)) == Ok::<ReadingView, ReadError>(
        after,
    )) by {
        reveal(step);
    }
    lemma_passes_one(record, state, after);
}

/// The record of the numbers of columns and rows is read back as those numbers.
#[verifier::rlimit(50)]
pub proof fn lemma_back_colrow(columns: u32, rows: u32)
    ensures
        read_back(colrow_record(columns, rows)) == DataView::I16(
            seq![signed16(low_word(columns as int)), signed16(low_word(rows as int))],
        ),
        record_fault(colrow_record(columns, rows)).is_none(),
{
    lemma_back_words(
        GDSRecord::ColRow,
        GDSDataType::TwoByteSignedInteger,
        seq![signed16(low_word(columns as int)), signed16(low_word(rows as int))],
    );
}

/// A count of columns or rows that sixteen bits can hold comes back from its low word.
#[verifier::spinoff_prover]
pub proof fn lemma_count_back(count: u32)
    requires
        count <= 0xFFFF,
    ensures
        widened(signed16(low_word(count as int))) == count,
{
}

/// The record of the numbers of columns and rows of an array passes, where neither is
/// more than sixteen bits count.
#[verifier::rlimit(50)]
pub proof fn lemma_pass_colrow(state: ReadingView, columns: u32, rows: u32)
    requires
        state.reference is Some,
        columns <= 0xFFFF,
        rows <= 0xFFFF,
    ensures
        passes(
            seq![Item::Record(colrow_record(columns, rows))],
            state,
            ReadingView {
                reference: Some(
                    ReferenceView {
                        grid: Grid { columns, rows, ..state.reference->Some_0.grid },
                        ..state.reference->Some_0
                    },
                ),
                ..state
            },
        ),
{
    let record = colrow_record(columns, rows);
    let after = ReadingView {
        reference: Some(
            ReferenceView {
                grid: Grid { columns, rows, ..state.reference->Some_0.grid },
                ..state.reference->Some_0
            },
        ),
        ..state
    };
    let pair = seq![signed16(low_word(columns as int)), signed16(low_word(rows as int))];
    lemma_back_colrow(columns, rows);
    lemma_count_back(columns);
    lemma_count_back(rows);
    lemma_step_colrow(state, pair);
    lemma_passes_one(record, state, after);
}

/// The records of a reference that comes back as it went in take a reader with an open
/// cell to the same cell with the reference added.
#[verifier::spinoff_prover]
#[verifier::rlimit(50)]
pub proof fn lemma_reference_passes(state: ReadingView, reference: ReferenceView)
    requires
        idle(state),
        clean_reference(reference),
    ensures
        passes(Reference::items(reference), state, joined_reference(state, reference)),
{
    let name = reference.instance->Cell_0;
    let grid = reference.grid;
    let corners = seq![grid.origin, grid.corner_x, grid.corner_y];
    let a = seq![Item::Record(plain(GDSRecord::ARef))];
    let b = seq![Item::Record(characters(GDSRecord::SName, name))];
    let c = as_items(transformation_records(grid.angle, grid.magnification, grid.x_reflection));
    let d = seq![Item::Record(colrow_record(grid.columns, grid.rows))];
    let e = as_items(xy_records(corners));
    let f = seq![Item::Record(plain(GDSRecord::EndEl))];
    let one = ReadingView { reference: Some(blank_reference()), ..state };
    let two = ReadingView {
        reference: Some(
            ReferenceView { instance: InstanceView::Cell(name), ..one.reference->Some_0 },
        ),
        ..one
    };
    let three = transformed(two, grid.angle, grid.magnification, grid.x_reflection);
    let four = ReadingView {
        reference: Some(
            ReferenceView {
                grid: Grid {
                    columns: grid.columns,
                    rows: grid.rows,
                    ..three.reference->Some_0.grid
                },
                ..three.reference->Some_0
            },
        ),
        ..three
    };
    let five = with_points(four, corners);
    let six = with_element_closed(five);
    lemma_pass_aref(state);
    lemma_pass_sname(one, name);
    lemma_transformation_passes(two, grid.angle, grid.magnification, grid.x_reflection);
    lemma_pass_colrow(three, grid.columns, grid.rows);
    lemma_pass_xy(four, corners);
    assert(corners[0] == grid.origin && corners[1] == grid.corner_x && corners[2]
        == grid.corner_y);
    lemma_pass_endel(five);
    lemma_passes_concat(a, b, state, one, two);
    lemma_passes_concat(a + b, c, state, two, three);
    lemma_passes_concat(a + b + c, d, state, three, four);
    lemma_passes_concat(a + b + c + d, e, state, four, five);
    lemma_passes_concat(a + b + c + d + e, f, state, five, six);
    assert(as_items(array_records(name, reference)) =~= a + b + c + d + e + f);
    assert(five.reference->Some_0.grid == grid);
    assert(five.reference == Some(reference));
    assert(six == joined_reference(state, reference));
}


/// The polygons of a list that all come back as they went in take a reader with an
/// open cell to the same cell with the polygons added in order.
pub proof fn lemma_polygons_pass(state: ReadingView, polygons: Seq<PolygonView>)
    requires
        idle(state),
        forall|i: int| 0 <= i < polygons.len() ==> clean_polygon(#[trigger] polygons[i]),
    ensures
        passes(
            gathered::<Polygon>(polygons),
            state,
            ReadingView {
                cell: Some(
                    CellView {
                        polygons: state.cell->Some_0.polygons + polygons,
                        ..state.cell->Some_0
                    },
                ),
                ..state
            },
        ),
    decreases polygons.len(),
{
    let cell = state.cell->Some_0;
    if polygons.len() == 0 {
        assert(cell.polygons + polygons =~= cell.polygons);
    } else {
        let first = polygons.drop_last();
        let middle = ReadingView {
            cell: Some(CellView { polygons: cell.polygons + first, ..cell }),
            ..state
        };
        assert forall|i: int| 0 <= i < first.len() implies clean_polygon(#[trigger] first[i]) by {
            assert(first[i] == polygons[i]);
        }
        lemma_polygons_pass(state, first);
        assert(clean_polygon(polygons[polygons.len() - 1]));
        lemma_polygon_passes(middle, polygons.last());
        lemma_passes_concat(
            gathered::<Polygon>(first),
            Polygon::items(polygons.last()),
            state,
            middle,
            joined_polygon(middle, polygons.last()),
        );
        assert((cell.polygons + first).push(polygons.last()) =~= cell.polygons + polygons);
    }
}

/// The paths of a list that all come back as they went in take a reader with an open
/// cell to the same cell with the paths added in order.
pub proof fn lemma_paths_pass(state: ReadingView, paths: Seq<PathView>)
    requires
        idle(state),
        forall|i: int| 0 <= i < paths.len() ==> clean_path(#[trigger] paths[i]),
    ensures
        passes(
            gathered::<Path>(paths),
            state,
            ReadingView {
                cell: Some(
                    CellView { paths: state.cell->Some_0.paths + paths, ..state.cell->Some_0 },
                ),
                ..state
            },
        ),
    decreases paths.len(),
{
    let cell = state.cell->Some_0;
    if paths.len() == 0 {
        assert(cell.paths + paths =~= cell.paths);
    } else {
        let first = paths.drop_last();
        let middle = ReadingView {
            cell: Some(CellView { paths: cell.paths + first, ..cell }),
            ..state
        };
        assert forall|i: int| 0 <= i < first.len() implies clean_path(#[trigger] first[i]) by {
            assert(first[i] == paths[i]);
        }
        lemma_paths_pass(state, first);
        assert(clean_path(paths[paths.len() - 1]));
        lemma_path_passes(middle, paths.last());
        lemma_passes_concat(
            gathered::<Path>(first),
            Path::items(paths.last()),
            state,
            middle,
            joined_path(middle, paths.last()),
        );
        assert((cell.paths + first).push(paths.last()) =~= cell.paths + paths);
    }
}

/// The texts of a list that all come back as they went in take a reader with an open
/// cell to the same cell with the texts added in order.
pub proof fn lemma_texts_pass(state: ReadingView, texts: Seq<TextView>)
    requires
        idle(state),
        forall|i: int| 0 <= i < texts.len() ==> clean_text(#[trigger] texts[i]),
    ensures
        passes(
            gathered::<Text>(texts),
            state,
            ReadingView {
                cell: Some(
                    CellView { texts: state.cell->Some_0.texts + texts, ..state.cell->Some_0 },
                ),
                ..state
            },
        ),
    decreases texts.len(),
{
    let cell = state.cell->Some_0;
    if texts.len() == 0 {
        assert(cell.texts + texts =~= cell.texts);
    } else {
        let first = texts.drop_last();
        let middle = ReadingView {
            cell: Some(CellView { texts: cell.texts + first, ..cell }),
            ..state
        };
        assert forall|i: int| 0 <= i < first.len() implies clean_text(#[trigger] first[i]) by {
            assert(first[i] == texts[i]);
        }
        lemma_texts_pass(state, first);
        assert(clean_text(texts[texts.len() - 1]));
        lemma_text_passes(middle, texts.last());
        lemma_passes_concat(
            gathered::<Text>(first),
            Text::items(texts.last()),
            state,
            middle,
            joined_text(middle, texts.last()),
        );
        assert((cell.texts + first).push(texts.last()) =~= cell.texts + texts);
    }
}

/// Whether an element comes back from a stream as it went in: a polygon, a path, a text
/// or a reference to a cell that does.
pub open spec fn clean_element(element: ElementView) -> bool {
    match element {
        ElementView::Polygon(polygon) => clean_polygon(polygon),
        ElementView::Path(path) => clean_path(path),
        ElementView::Text(text) => clean_text(text),
        ElementView::Reference(reference) => clean_reference(reference),
    }
}

/// Whether what a reference stands for comes back from a stream as it went in: whether
/// every copy that it makes can be made, and is an element that comes back. A reference
/// to a cell stands for itself.
pub open spec fn clean_expansion(reference: ReferenceView) -> bool {
    expansion(reference) matches Some(list) && forall|i: int|
        0 <= i < list.len() ==> clean_element(#[trigger] list[i])
}

/// What the references of a list stand for, reference after reference; nothing for a
/// reference of which a copy cannot be made.
pub open spec fn expansions(references: Seq<ReferenceView>) -> Seq<ElementView>
    decreases references.len(),
{
    if references.len() == 0 {
        Seq::empty()
    } else {
        expansions(references.drop_last()) + match expansion(references.last()) {
            Some(list) => list,
            None => Seq::empty(),
        }
    }
}

/// The cell as a stream keeps it: with every reference to a bare element replaced by
/// what it stands for, each element in the list of its kind, after what the cell held
/// of that kind.
pub open spec fn kept_cell(cell: CellView) -> CellView {
    (CellView { references: Seq::empty(), ..cell }).with_all(expansions(cell.references))
}

/// The cells as a stream keeps them.
pub open spec fn kept_cells(cells: Seq<CellView>) -> Seq<CellView> {
    Seq::new(cells.len(), |i: int| kept_cell(cells[i]))
}

/// A reference to a cell stands for itself.
pub proof fn lemma_expansion_of_cell(reference: ReferenceView)
    requires
        reference.instance is Cell,
    ensures
        expansion(reference) == Some(seq![ElementView::Reference(reference)]),
{
    let copies = chain_copies(reference);
    let placed = unplaced(ElementView::Reference(reference));
    assert(copies == seq![placed]);
    assert(copies.drop_last() =~= Seq::<PlacedView>::empty());
    assert(copies.last() == placed);
    assert(crate::motion::reference_through_all(reference, placed.placements) == Some(reference));
    assert(crate::motion::every_resolved(copies.drop_last()) == Some(Seq::<ElementView>::empty()));
    assert(crate::motion::resolved(copies.last()) == Some(ElementView::Reference(reference)));
    assert(Seq::<ElementView>::empty().push(ElementView::Reference(reference)) =~= seq![
        ElementView::Reference(reference),
    ]);
}

/// Adding one list of elements after another is adding the two joined.
pub proof fn lemma_with_all_joined(cell: CellView, first: Seq<ElementView>, second: Seq<ElementView>)
    ensures
        cell.with_all(first + second) == cell.with_all(first).with_all(second),
    decreases second.len(),
{
    if second.len() == 0 {
        assert(first + second =~= first);
    } else {
        assert((first + second).drop_last() =~= first + second.drop_last());
        assert((first + second).last() == second.last());
        lemma_with_all_joined(cell, first, second.drop_last());
    }
}

/// The elements of a list that all come back as they went in, written as what
/// references stand for, take a reader with an open cell to the same cell with the
/// elements added, each to the list of its kind.
pub proof fn lemma_shapes_pass(state: ReadingView, list: Seq<ElementView>)
    requires
        idle(state),
        forall|i: int| 0 <= i < list.len() ==> clean_element(#[trigger] list[i]),
    ensures
        passes(
            shapes_items(list),
            state,
            ReadingView { cell: Some(state.cell->Some_0.with_all(list)), ..state },
        ),
    decreases list.len(),
{
    let cell = state.cell->Some_0;
    if list.len() > 0 {
        let first = list.drop_last();
        let middle = ReadingView { cell: Some(cell.with_all(first)), ..state };
        let after = ReadingView { cell: Some(cell.with_all(list)), ..state };
        assert forall|i: int| 0 <= i < first.len() implies clean_element(#[trigger] first[i]) by {
            assert(first[i] == list[i]);
        }
        lemma_shapes_pass(state, first);
        assert(clean_element(list[list.len() - 1]));
        match list.last() {
            ElementView::Polygon(polygon) => {
                lemma_polygon_passes(middle, polygon);
                assert(joined_polygon(middle, polygon) == after);
            },
            ElementView::Path(path) => {
                lemma_path_passes(middle, path);
                assert(joined_path(middle, path) == after);
            },
            ElementView::Text(text) => {
                lemma_text_passes(middle, text);
                assert(joined_text(middle, text) == after);
            },
            ElementView::Reference(reference) => {
                lemma_reference_passes(middle, reference);
                assert(joined_reference(middle, reference) == after);
            },
        }
        lemma_passes_concat(shapes_items(first), shape_items(list.last()), state, middle, after);
    }
}

/// The records of a reference whose copies come back as they went in take a reader
/// with an open cell to the same cell with what the reference stands for added.
pub proof fn lemma_expansion_passes(state: ReadingView, reference: ReferenceView)
    requires
        idle(state),
        clean_expansion(reference),
    ensures
        passes(
            Reference::items(reference),
            state,
            ReadingView {
                cell: Some(state.cell->Some_0.with_all(expansion(reference)->Some_0)),
                ..state
            },
        ),
{
    let list = expansion(reference)->Some_0;
    lemma_shapes_pass(state, list);
    if reference.instance is Cell {
        lemma_expansion_of_cell(reference);
        assert(list.drop_last() =~= Seq::<ElementView>::empty());
        assert(shapes_items(list.drop_last()) =~= Seq::<Item>::empty());
        assert(list.last() == ElementView::Reference(reference));
        assert(shape_items(list.last()) == Reference::items(reference));
        assert(shapes_items(list) =~= Reference::items(reference));
    }
}

/// The references of a list whose copies all come back as they went in take a reader
/// with an open cell to the same cell with what the references stand for added,
/// reference after reference.
pub proof fn lemma_expansions_pass(state: ReadingView, references: Seq<ReferenceView>)
    requires
        idle(state),
        forall|i: int| 0 <= i < references.len() ==> clean_expansion(#[trigger] references[i]),
    ensures
        passes(
            gathered::<Reference>(references),
            state,
            ReadingView {
                cell: Some(state.cell->Some_0.with_all(expansions(references))),
                ..state
            },
        ),
    decreases references.len(),
{
    let cell = state.cell->Some_0;
    if references.len() > 0 {
        let first = references.drop_last();
        let middle = ReadingView { cell: Some(cell.with_all(expansions(first))), ..state };
        assert forall|i: int| 0 <= i < first.len() implies clean_expansion(
            #[trigger] first[i],
        ) by {
            assert(first[i] == references[i]);
        }
        lemma_expansions_pass(state, first);
        assert(clean_expansion(references[references.len() - 1]));
        let more = expansion(references.last())->Some_0;
        lemma_expansion_passes(middle, references.last());
        lemma_with_all_joined(cell, expansions(first), more);
        lemma_passes_concat(
            gathered::<Reference>(first),
            Reference::items(references.last()),
            state,
            middle,
            ReadingView { cell: Some(cell.with_all(expansions(first)).with_all(more)), ..state },
        );
    }
}

/// References that all place cells stand for themselves, in order.
pub proof fn lemma_expansions_of_cells(references: Seq<ReferenceView>)
    requires
        forall|i: int| 0 <= i < references.len() ==> (#[trigger] references[i]).instance is Cell,
    ensures
        expansions(references) == crate::flatten::reference_elements(references),
    decreases references.len(),
{
    if references.len() > 0 {
        let first = references.drop_last();
        assert forall|i: int| 0 <= i < first.len() implies (#[trigger] first[i]).instance
            is Cell by {
            assert(first[i] == references[i]);
        }
        lemma_expansions_of_cells(first);
        assert(references[references.len() - 1].instance is Cell);
        lemma_expansion_of_cell(references.last());
        assert(crate::flatten::reference_elements(first) + seq![
            ElementView::Reference(references.last()),
        ] =~= crate::flatten::reference_elements(references));
    } else {
        assert(expansions(references) =~= crate::flatten::reference_elements(references));
    }
}

/// References added to a cell join its references, in order.
pub proof fn lemma_with_references(cell: CellView, references: Seq<ReferenceView>)
    ensures
        cell.with_all(crate::flatten::reference_elements(references)) == (CellView {
            references: cell.references + references,
            ..cell
        }),
    decreases references.len(),
{
    let list = crate::flatten::reference_elements(references);
    if references.len() == 0 {
        assert(cell.references + references =~= cell.references);
    } else {
        let first = references.drop_last();
        lemma_with_references(cell, first);
        assert(list.drop_last() =~= crate::flatten::reference_elements(first));
        assert(list.last() == ElementView::Reference(references.last()));
        assert((cell.references + first).push(references.last()) =~= cell.references
            + references);
    }
}

/// A cell whose references all place cells is kept by a stream as it is.
pub proof fn lemma_kept_same(cell: CellView)
    requires
        forall|i: int|
            0 <= i < cell.references.len() ==> (#[trigger] cell.references[i]).instance is Cell,
    ensures
        kept_cell(cell) == cell,
{
    lemma_expansions_of_cells(cell.references);
    lemma_with_references(CellView { references: Seq::empty(), ..cell }, cell.references);
    assert(Seq::<ReferenceView>::empty() + cell.references =~= cell.references);
}

/// Whether a cell comes back from a stream as the stream keeps it: its name and its
/// polygons, paths and texts come back as they went in, and so does every element that
/// its references stand for.
pub open spec fn clean_cell(cell: CellView) -> bool {
    &&& storable(cell.name)
    &&& forall|i: int| 0 <= i < cell.polygons.len() ==> clean_polygon(#[trigger] cell.polygons[i])
    &&& forall|i: int| 0 <= i < cell.paths.len() ==> clean_path(#[trigger] cell.paths[i])
    &&& forall|i: int| 0 <= i < cell.texts.len() ==> clean_text(#[trigger] cell.texts[i])
    &&& forall|i: int|
        0 <= i < cell.references.len() ==> clean_expansion(#[trigger] cell.references[i])
}

/// Whether nothing is open: no cell and no element.
pub open spec fn closed(state: ReadingView) -> bool {
    state.cell is None && state.polygon is None && state.path is None && state.text is None
        && state.reference is None
}

/// The record that opens a structure passes.
pub proof fn lemma_pass_bgnstr(state: ReadingView, timestamp: Timestamp)
    ensures
        passes(
            seq![Item::Record(stamps(GDSRecord::BgnStr, timestamp))],
            state,
            ReadingView { cell: Some(CellView::empty(Seq::empty())), ..state },
        ),
{
    let record = stamps(GDSRecord::BgnStr, timestamp);
    let after = ReadingView { cell: Some(CellView::empty(Seq::empty())), ..state };
    assert(data_bytes(record.data).len() == 24);
    assert(step(state, GDSRecord::BgnStr, read_back(record)) == Ok::<ReadingView, ReadError>(
        after,
    )) by {
        reveal(step);
    }
    lemma_passes_one(record, state, after);
}

/// The record that opens the library passes and changes nothing.
pub proof fn lemma_pass_bgnlib(state: ReadingView, timestamp: Timestamp)
    ensures
        passes(seq![Item::Record(stamps(GDSRecord::BgnLib, timestamp))], state, state),
{
    let record = stamps(GDSRecord::BgnLib, timestamp);
    assert(data_bytes(record.data).len() == 24);
    assert(step(state, GDSRecord::BgnLib, read_back(record)) == Ok::<ReadingView, ReadError>(
        state,
    )) by {
        reveal(step);
    }
    lemma_passes_one(record, state, state);
}

/// The record of the name of a structure passes.
#[verifier::rlimit(50)]
pub proof fn lemma_pass_strname(state: ReadingView, name: Seq<char>)
    requires
        state.cell is Some,
        state.cell->Some_0.name == Seq::<char>::empty(),
        storable(name),
    ensures
        passes(
            seq![Item::Record(characters(GDSRecord::StrName, name))],
            state,
            ReadingView { cell: Some(CellView { name, ..state.cell->Some_0 }), ..state },
        ),
{
    let record = characters(GDSRecord::StrName, name);
    let after = ReadingView { cell: Some(CellView { name, ..state.cell->Some_0 }), ..state };
    lemma_back_characters(GDSRecord::StrName, name);
    if encode_utf8(name).len() == 0 {
        lemma_no_bytes_no_text(name);
        assert(after == state);
    }
    assert(step(state, GDSRecord::StrName, read_back(record)) == Ok::<ReadingView, ReadError>(
        after,
    )) by {
        reveal(step);
    }
    lemma_passes_one(record, state, after);
}

/// The record that ends a structure passes, and puts the open cell into the library.
pub proof fn lemma_pass_endstr(state: ReadingView)
    requires
        state.cell is Some,
    ensures
        passes(
            seq![Item::Record(plain(GDSRecord::EndStr))],
            state,
            ReadingView {
                library: LibraryView {
                    cells: placed(state.library.cells, state.cell->Some_0),
                    ..state.library
                },
                cell: None,
                ..state
            },
        ),
{
    reveal(step);
    lemma_pass_plain(
        GDSRecord::EndStr,
        state,
        ReadingView {
            library: LibraryView {
                cells: placed(state.library.cells, state.cell->Some_0),
                ..state.library
            },
            cell: None,
            ..state
        },
    );
}

/// The records of a cell that comes back take a reader with nothing open to the same
/// library with the cell put in, as the stream keeps it.
#[verifier::spinoff_prover]
#[verifier::rlimit(50)]
pub proof fn lemma_cell_passes(state: ReadingView, cell: CellView, timestamp: Timestamp)
    requires
        closed(state),
        clean_cell(cell),
    ensures
        passes(
            cell_items(cell, timestamp),
            state,
            ReadingView {
                library: LibraryView {
                    cells: placed(state.library.cells, kept_cell(cell)),
                    ..state.library
                },
                ..state
            },
        ),
{
    let first = stamps(GDSRecord::BgnStr, timestamp);
    let second = characters(GDSRecord::StrName, cell.name);
    let a = seq![Item::Record(first)];
    let b = seq![Item::Record(second)];
    let c = gathered::<Path>(cell.paths);
    let d = gathered::<Polygon>(cell.polygons);
    let e = gathered::<Text>(cell.texts);
    let f = gathered::<Reference>(cell.references);
    let g = seq![Item::Record(plain(GDSRecord::EndStr))];
    let blank = CellView::empty(Seq::empty());
    let one = ReadingView { cell: Some(blank), ..state };
    let named = CellView { name: cell.name, ..blank };
    let two = ReadingView { cell: Some(named), ..state };
    let three = ReadingView { cell: Some(CellView { paths: cell.paths, ..named }), ..state };
    let four = ReadingView {
        cell: Some(CellView { paths: cell.paths, polygons: cell.polygons, ..named }),
        ..state
    };
    let five = ReadingView {
        cell: Some(
            CellView { paths: cell.paths, polygons: cell.polygons, texts: cell.texts, ..named },
        ),
        ..state
    };
    let six = ReadingView { cell: Some(kept_cell(cell)), ..state };
    let seven = ReadingView {
        library: LibraryView {
            cells: placed(state.library.cells, kept_cell(cell)),
            ..state.library
        },
        ..state
    };
    lemma_pass_bgnstr(state, timestamp);
    lemma_pass_strname(one, cell.name);
    lemma_paths_pass(two, cell.paths);
    assert(Seq::<PathView>::empty() + cell.paths =~= cell.paths);
    lemma_polygons_pass(three, cell.polygons);
    assert(Seq::<PolygonView>::empty() + cell.polygons =~= cell.polygons);
    lemma_texts_pass(four, cell.texts);
    assert(Seq::<TextView>::empty() + cell.texts =~= cell.texts);
    lemma_expansions_pass(five, cell.references);
    assert(five.cell->Some_0 == (CellView { references: Seq::empty(), ..cell }));
    lemma_pass_endstr(six);
    lemma_passes_concat(a, b, state, one, two);
    lemma_passes_concat(a + b, c, state, two, three);
    lemma_passes_concat(a + b + c, d, state, three, four);
    lemma_passes_concat(a + b + c + d, e, state, four, five);
    lemma_passes_concat(a + b + c + d + e, f, state, five, six);
    lemma_passes_concat(a + b + c + d + e + f, g, state, six, seven);
    assert(as_items(seq![first, second]) =~= a + b);
    assert(cell_items(cell, timestamp) =~= a + b + c + d + e + f + g);
}

/// The cells at the given places, in the order of the places.
pub open spec fn picked(cells: Seq<CellView>, order: Seq<int>) -> Seq<CellView> {
    Seq::new(order.len(), |k: int| cells[order[k]])
}

/// A list of cells after the arrivals have been put in, one after the other.
pub open spec fn placed_all(cells: Seq<CellView>, arrivals: Seq<CellView>) -> Seq<CellView>
    decreases arrivals.len(),
{
    if arrivals.len() == 0 {
        cells
    } else {
        placed(placed_all(cells, arrivals.drop_last()), arrivals.last())
    }
}

/// The records of cells that come back take a reader with nothing open to the same
/// library with the cells put in, in order, each as the stream keeps it.
#[verifier::rlimit(50)]
pub proof fn lemma_cells_pass(
    state: ReadingView,
    cells: Seq<CellView>,
    order: Seq<int>,
    timestamp: Timestamp,
)
    requires
        closed(state),
        forall|k: int| 0 <= k < order.len() ==> 0 <= #[trigger] order[k] < cells.len(),
        forall|i: int| 0 <= i < cells.len() ==> clean_cell(#[trigger] cells[i]),
    ensures
        passes(
            cells_items(cells, order, timestamp),
            state,
            ReadingView {
                library: LibraryView {
                    cells: placed_all(state.library.cells, picked(kept_cells(cells), order)),
                    ..state.library
                },
                ..state
            },
        ),
    decreases order.len(),
{
    let kept = kept_cells(cells);
    if order.len() == 0 {
        assert(picked(kept, order) =~= Seq::<CellView>::empty());
    } else {
        let first = order.drop_last();
        let middle = ReadingView {
            library: LibraryView {
                cells: placed_all(state.library.cells, picked(kept, first)),
                ..state.library
            },
            ..state
        };
        assert forall|k: int| 0 <= k < first.len() implies 0 <= #[trigger] first[k]
            < cells.len() by {
            assert(first[k] == order[k]);
        }
        lemma_cells_pass(state, cells, first, timestamp);
        let place = order[order.len() - 1];
        assert(0 <= place < cells.len());
        assert(clean_cell(cells[place]));
        lemma_cell_passes(middle, cells[place], timestamp);
        lemma_passes_concat(
            cells_items(cells, first, timestamp),
            cell_items(cells[place], timestamp),
            state,
            middle,
            ReadingView {
                library: LibraryView {
                    cells: placed(middle.library.cells, kept_cell(cells[place])),
                    ..middle.library
                },
                ..middle
            },
        );
        assert(picked(kept, order).drop_last() =~= picked(kept, first));
        assert(picked(kept, order).last() == kept_cell(cells[place]));
    }
}

/// The cells as a stream keeps them bear the names of the cells, so no two of them the
/// same where no two of the cells do.
pub proof fn lemma_kept_names(cells: Seq<CellView>)
    requires
        distinct_names(cells),
    ensures
        distinct_names(kept_cells(cells)),
        forall|i: int| 0 <= i < cells.len() ==> (#[trigger] kept_cells(cells)[i]).name == cells[i].name,
{
    assert forall|i: int| 0 <= i < cells.len() implies (#[trigger] kept_cells(cells)[i]).name
        == cells[i].name by {
        crate::motion::lemma_with_all_keeps(
            CellView { references: Seq::empty(), ..cells[i] },
            expansions(cells[i].references),
        );
    }
}

/// Cells of different names, put one after the other into an empty library, stand in it
/// in the order in which they came.
#[verifier::rlimit(50)]
pub proof fn lemma_placed_picked(cells: Seq<CellView>, order: Seq<int>)
    requires
        distinct_names(cells),
        order.no_duplicates(),
        forall|k: int| 0 <= k < order.len() ==> 0 <= #[trigger] order[k] < cells.len(),
    ensures
        placed_all(Seq::empty(), picked(cells, order)) == picked(cells, order),
    decreases order.len(),
{
    if order.len() == 0 {
        assert(picked(cells, order) =~= Seq::<CellView>::empty());
    } else {
        let first = order.drop_last();
        assert forall|k: int| 0 <= k < first.len() implies 0 <= #[trigger] first[k]
            < cells.len() by {
            assert(first[k] == order[k]);
        }
        assert(first.no_duplicates()) by {
            assert forall|i: int, j: int| 0 <= i < first.len() && 0 <= j < first.len() && i
                != j implies first[i] != first[j] by {
                assert(first[i] == order[i] && first[j] == order[j]);
            }
        }
        lemma_placed_picked(cells, first);
        let before = picked(cells, first);
        let place = order[order.len() - 1];
        let cell = cells[place];
        assert(picked(cells, order).drop_last() =~= before);
        assert(picked(cells, order).last() == cell);
        assert(!has_name(before, cell.name)) by {
            if has_name(before, cell.name) {
                let k = choose|k: int| 0 <= k < before.len() && (#[trigger] before[k]).name
                    == cell.name;
                assert(before[k] == cells[order[k]]);
                assert(order[k] != place);
                assert(0 <= order[k] < cells.len());
                if order[k] < place {
                    assert(cells[order[k]].name != cells[place].name);
                } else {
                    assert(cells[place].name != cells[order[k]].name);
                }
            }
        }
        assert(before.push(cell) =~= picked(cells, order));
    }
}


/// The record of the name of a library passes, where the name has characters.
#[verifier::rlimit(50)]
pub proof fn lemma_pass_libname(state: ReadingView, name: Seq<char>)
    requires
        storable(name),
        encode_utf8(name).len() > 0,
    ensures
        passes(
            seq![Item::Record(characters(GDSRecord::LibName, name))],
            state,
            ReadingView { library: LibraryView { name, ..state.library }, ..state },
        ),
{
    let record = characters(GDSRecord::LibName, name);
    let after = ReadingView { library: LibraryView { name, ..state.library }, ..state };
    lemma_back_characters(GDSRecord::LibName, name);
    assert(step(state, GDSRecord::LibName, read_back(record)) == Ok::<ReadingView, ReadError>(
        after,
    )) by {
        reveal(step);
    }
    lemma_passes_one(record, state, after);
}

/// The record of the units.
pub open spec fn units_record(units: Units) -> RecordView {
    RecordView {
        kind: GDSRecord::Units,
        layout: GDSDataType::EightByteReal,
        data: DataView::F64(seq![units.user, units.meters]),
    }
}

/// The record of units that come back as they went in is read back as those units.
#[verifier::rlimit(50)]
pub proof fn lemma_back_units(units: Units)
    requires
        exact(units.user),
        exact(units.meters),
    ensures
        read_back(units_record(units)) == DataView::F64(seq![units.user, units.meters]),
        record_fault(units_record(units)).is_none(),
{
    let values = seq![units.user, units.meters];
    assert(values[0] == units.user && values[1] == units.meters);
    lemma_back_reals(GDSRecord::Units, values);
}

/// What a reader does with units.
pub proof fn lemma_step_units(state: ReadingView, values: Seq<Real>)
    requires
        values.len() == 2,
    ensures
        step(state, GDSRecord::Units, DataView::F64(values)) == Ok::<ReadingView, ReadError>(
            ReadingView {
                units: Some(Units { user: values[0], meters: values[1] }),
                ..state
            },
        ),
{
    reveal(step);
}

/// The record of units that come back as they went in passes.
pub proof fn lemma_pass_units(state: ReadingView, units: Units)
    requires
        exact(units.user),
        exact(units.meters),
    ensures
        passes(
            seq![Item::Record(units_record(units))],
            state,
            ReadingView { units: Some(units), ..state },
        ),
{
    let values = seq![units.user, units.meters];
    lemma_back_units(units);
    lemma_step_units(state, values);
    assert(values[0] == units.user && values[1] == units.meters);
    lemma_passes_one(units_record(units), state, ReadingView { units: Some(units), ..state });
}

/// Whether a library comes back from a stream as it went in: its name has characters,
/// no two of its cells have the same name, and its name and its cells come back as they
/// went in.
pub open spec fn clean_library(library: LibraryView) -> bool {
    &&& storable(library.name)
    &&& encode_utf8(library.name).len() > 0
    &&& distinct_names(library.cells)
    &&& forall|i: int| 0 <= i < library.cells.len() ==> clean_cell(#[trigger] library.cells[i])
}

/// What a library written and read again is: the library with its cells in the order
/// in which they were written, each as the stream keeps it.
pub open spec fn written_and_read(library: LibraryView) -> LibraryView {
    LibraryView {
        name: library.name,
        cells: picked(kept_cells(library.cells), write_order(library.cells)),
    }
}

/// Writing and reading undo each other: a library that holds only what a stream keeps
/// can be written, and what is read from the stream is the library with its cells in the
/// order of writing, and the units that were written. A reference to a bare element
/// comes back as the elements that it stands for; everything else comes back as it was.
/// Nothing is rounded on the way: coordinates are whole database units, and
/// magnifications and angles come back bit for bit.
#[verifier::spinoff_prover]
#[verifier::rlimit(50)]
pub proof fn lemma_write_read(library: LibraryView, units: Units, timestamp: Timestamp)
    requires
        clean_library(library),
        exact(units.user),
        exact(units.meters),
    ensures
        outcome(library_items(library, units, timestamp)) is Ok,
        read_stream(outcome(library_items(library, units, timestamp))->Ok_0) == Ok::<
            (LibraryView, Option<Units>),
            ReadError,
        >((written_and_read(library), Some(units))),
{
    let cells = library.cells;
    let order = write_order(cells);
    let version = short(GDSRecord::Header, GDSDataType::TwoByteSignedInteger, STREAM_VERSION);
    let begin = stamps(GDSRecord::BgnLib, timestamp);
    let name = characters(GDSRecord::LibName, library.name);
    let sizes = units_record(units);
    let end = plain(GDSRecord::EndLib);
    let v = seq![Item::Record(version)];
    let a = seq![Item::Record(begin)];
    let b = seq![Item::Record(name)];
    let c = seq![Item::Record(sizes)];
    let d = cells_items(cells, order, timestamp);
    let e = seq![Item::Record(end)];
    let start = blank_reading();
    let one = ReadingView { library: LibraryView { name: library.name, ..start.library }, ..start };
    let two = ReadingView { units: Some(units), ..one };
    let three = ReadingView {
        library: LibraryView {
            cells: placed_all(two.library.cells, picked(kept_cells(cells), order)),
            ..two.library
        },
        ..two
    };
    lemma_write_order_once(cells);
    lemma_kept_names(cells);
    lemma_pass_bgnlib(start, timestamp);
    lemma_pass_libname(start, library.name);
    lemma_pass_units(one, units);
    lemma_cells_pass(two, cells, order, timestamp);
    lemma_placed_picked(kept_cells(cells), order);
    lemma_passes_concat(a, b, start, start, one);
    lemma_passes_concat(a + b, c, start, one, two);
    lemma_passes_concat(a + b + c, d, start, two, three);
    let body = a + b + c + d;
    assert(passes(body, start, three));
    let middle = outcome(body)->Ok_0;
    lemma_back_short(GDSRecord::Header, GDSDataType::TwoByteSignedInteger, STREAM_VERSION);
    lemma_back_plain(GDSRecord::EndLib);
    lemma_outcome_one(Item::Record(version));
    lemma_outcome_one(Item::Record(end));
    lemma_outcome_concat(v, body);
    lemma_outcome_concat(v + body, e);
    assert(as_items(head_records(library.name, units, timestamp)) =~= v + a + b + c);
    assert(library_items(library, units, timestamp) =~= (v + body) + e);
    let first = record_bytes(version);
    let last = record_bytes(end);
    let bytes = outcome(library_items(library, units, timestamp))->Ok_0;
    assert(bytes == (first + middle) + last);
    lemma_frame(version, Seq::empty(), middle + last);
    assert(Seq::<u8>::empty() + first + (middle + last) =~= bytes);
    lemma_read_items(body, start, three, first, last);
    assert(first + middle + last =~= bytes);
    lemma_frame(end, first + middle, Seq::empty());
    assert((first + middle) + last + Seq::<u8>::empty() =~= bytes);
    let position = (first.len() + middle.len()) as int;
    assert(read_from(bytes, position, three) == Ok::<ReadingView, ReadError>(three));
    assert(three.library == written_and_read(library));
}

/// Whether every reference of every cell places a cell.
pub open spec fn places_cells(cells: Seq<CellView>) -> bool {
    forall|i: int, k: int|
        0 <= i < cells.len() && 0 <= k < cells[i].references.len() ==> (
        #[trigger] cells[i].references[k]).instance is Cell
}

/// A library whose references all place cells, and which holds only what a stream
/// keeps, is read back as it was written, but for the order of its cells: every cell
/// comes back with all that it held, bit for bit.
pub proof fn lemma_write_read_same(library: LibraryView, units: Units, timestamp: Timestamp)
    requires
        clean_library(library),
        places_cells(library.cells),
        exact(units.user),
        exact(units.meters),
    ensures
        outcome(library_items(library, units, timestamp)) is Ok,
        read_stream(outcome(library_items(library, units, timestamp))->Ok_0) == Ok::<
            (LibraryView, Option<Units>),
            ReadError,
        >(
            (
                LibraryView {
                    name: library.name,
                    cells: picked(library.cells, write_order(library.cells)),
                },
                Some(units),
            ),
        ),
{
    lemma_write_read(library, units, timestamp);
    let cells = library.cells;
    assert forall|i: int| 0 <= i < cells.len() implies #[trigger] kept_cells(cells)[i]
        == cells[i] by {
        assert forall|k: int| 0 <= k < cells[i].references.len() implies (
        #[trigger] cells[i].references[k]).instance is Cell by {}
        lemma_kept_same(cells[i]);
    }
    assert(kept_cells(cells) =~= cells);
}

/// A library that was written and read again holds a cell of a name where the library
/// that was written did, and under every name the cell of that name as the stream keeps
/// it: to find a cell by its name in what was read is to find the cell that was written,
/// whatever the order of the cells, and wherever in the stream a reference to it stood.
pub proof fn lemma_read_by_name(library: LibraryView, name: Seq<char>)
    requires
        distinct_names(library.cells),
    ensures
        has_name(written_and_read(library).cells, name) == has_name(library.cells, name),
        has_name(library.cells, name) ==> written_and_read(library).cells[place_of(
            written_and_read(library).cells,
            name,
        )] == kept_cell(library.cells[place_of(library.cells, name)]),
{
    let cells = library.cells;
    let order = write_order(cells);
    let read = written_and_read(library).cells;
    lemma_write_order_once(cells);
    lemma_kept_names(cells);
    crate::library::lemma_place_of(cells, name);
    crate::library::lemma_place_of(read, name);
    assert forall|k: int| 0 <= k < read.len() implies (#[trigger] read[k]).name
        == cells[order[k]].name by {
        assert(read[k] == kept_cells(cells)[order[k]]);
    }
    if has_name(cells, name) {
        let place = place_of(cells, name);
        assert(order.contains(place));
        let k = choose|k: int| 0 <= k < order.len() && order[k] == place;
        assert(read[k].name == name);
        let found = place_of(read, name);
        assert(read[found].name == name);
        assert(cells[order[found]].name == name);
        assert(order[found] == place) by {
            if order[found] != place {
                if order[found] < place {
                    assert(cells[order[found]].name != cells[place].name);
                } else {
                    assert(cells[place].name != cells[order[found]].name);
                }
            }
        }
        assert(read[found] == kept_cells(cells)[place]);
    } else {
        if has_name(read, name) {
            let k = choose|k: int| 0 <= k < read.len() && (#[trigger] read[k]).name == name;
            assert(cells[order[k]].name == name);
        }
    }
}

/// A number that a stream keeps is equal to itself as a number.
pub proof fn lemma_exact_same(value: Real)
    requires
        exact(value),
    ensures
        value.same_number_spec(value),
{
    if value.zero_spec() {
        assert(value.bits == 0 || value.bits == TWO_POW_63);
    }
}

/// A cell that comes back as it went in, and whose references all place cells, agrees
/// with itself within every tolerance but none at all.
pub proof fn lemma_cell_agrees(cell: CellView, epsilon: u32)
    requires
        clean_cell(cell),
        forall|k: int|
            0 <= k < cell.references.len() ==> (#[trigger] cell.references[k]).instance is Cell,
        epsilon > 0,
    ensures
        cell.equal_within(cell, epsilon),
{
    assert forall|i: int| 0 <= i < cell.texts.len() implies <Text as crate::traits::Shape>::agree(
        #[trigger] cell.texts[i],
        cell.texts[i],
        epsilon,
    ) by {
        assert(clean_text(cell.texts[i]));
        lemma_exact_same(cell.texts[i].angle);
        lemma_exact_same(cell.texts[i].magnification);
    }
    assert forall|i: int|
        0 <= i < cell.references.len() implies <Reference as crate::traits::Shape>::agree(
        #[trigger] cell.references[i],
        cell.references[i],
        epsilon,
    ) by {
        let reference = cell.references[i];
        assert(clean_expansion(reference));
        lemma_expansion_of_cell(reference);
        assert(expansion(reference)->Some_0[0] == ElementView::Reference(reference));
        assert(clean_element(expansion(reference)->Some_0[0]));
        lemma_exact_same(reference.grid.angle);
        lemma_exact_same(reference.grid.magnification);
    }
}

/// A library that holds only what a stream keeps, and whose references all place cells,
/// is read back from what it was written as a library that agrees with it within every
/// tolerance but none at all: with the same name, as many cells, and under every name a
/// cell that agrees with the cell of that name, element by element.
pub proof fn lemma_round_trip_agrees(
    library: LibraryView,
    units: Units,
    timestamp: Timestamp,
    epsilon: u32,
)
    requires
        clean_library(library),
        places_cells(library.cells),
        exact(units.user),
        exact(units.meters),
        epsilon > 0,
    ensures
        outcome(library_items(library, units, timestamp)) is Ok,
        read_stream(outcome(library_items(library, units, timestamp))->Ok_0) is Ok,
        read_stream(outcome(library_items(library, units, timestamp))->Ok_0)->Ok_0.1 == Some(units),
        read_stream(
            outcome(library_items(library, units, timestamp))->Ok_0,
        )->Ok_0.0.equal_within(library, epsilon),
{
    lemma_write_read_same(library, units, timestamp);
    let cells = library.cells;
    let order = write_order(cells);
    let read = picked(cells, order);
    lemma_write_order_once(cells);
    assert forall|i: int| 0 <= i < read.len() implies has_name(cells, (#[trigger] read[i]).name)
        && read[i].equal_within(cells[place_of(cells, read[i].name)], epsilon) by {
        let place = order[i];
        assert(read[i] == cells[place]);
        assert(0 <= place < cells.len());
        assert(cells[place].name == read[i].name);
        crate::library::lemma_place_of(cells, read[i].name);
        let found = place_of(cells, read[i].name);
        assert(found == place) by {
            if found < place {
                assert(cells[found].name != cells[place].name);
            } else if place < found {
                assert(cells[place].name != cells[found].name);
            }
        }
        assert(clean_cell(cells[place]));
        assert forall|k: int| 0 <= k < cells[place].references.len() implies (
        #[trigger] cells[place].references[k]).instance is Cell by {}
        lemma_cell_agrees(cells[place], epsilon);
    }
}

} // verus!
