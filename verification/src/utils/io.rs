use vstd::prelude::*;
use vstd::string::StringSliceAdditionalSpecFns;
use crate::config::gds_file_types::{
    combine_record_and_data_type,
    DataView,
    GDSDataType,
    GDSRecord,
    MAX_POLYGON_POINTS,
};
use crate::error::WriteError;
use crate::number::{Real, ONE_BITS};
use crate::point::Point;
use crate::utils::bytes::{
    be_u32,
    be_words,
    i32s_bytes,
    padded,
    pattern_of,
    push_u32,
    signed16,
    unsigned16,
    unsigned32,
};
use crate::utils::clock::Timestamp;
use crate::utils::gds_format::{
    be_u64, eight_byte_real, real_word, representable, u16_array_to_big_endian,
};
use crate::utils::stream::{
    appended, as_items, data_bytes, lemma_outcome_concat, lemma_outcome_one, outcome,
    reals_bytes, record_bytes, record_fault, Item, RecordView, MAX_PAYLOAD,
};
use vstd::utf8::encode_utf8;

verus! {

/// A record without a payload.
pub open spec fn plain(kind: GDSRecord) -> RecordView {
    RecordView { kind, layout: GDSDataType::NoData, data: DataView::Empty }
}

/// A record that holds one sixteen-bit word.
pub open spec fn short(kind: GDSRecord, layout: GDSDataType, word: u16) -> RecordView {
    RecordView { kind, layout, data: DataView::I16(seq![signed16(word)]) }
}

/// Writes the words to `file`, each most significant byte first.
pub fn write_u16_array_to_file(file: &mut Vec<u8>, array: &[u16])
    ensures
        final(file)@ == old(file)@ + be_words(array@),
{
    let mut bytes = u16_array_to_big_endian(array);
    file.append(&mut bytes);
}

/// Writes the record that ends an element.
pub fn write_element_tail_to_file(file: &mut Vec<u8>)
    ensures
        final(file)@ == old(file)@ + record_bytes(plain(GDSRecord::EndEl)),
{
    let tail: [u16; 2] = [4, combine_record_and_data_type(GDSRecord::EndEl, GDSDataType::NoData)];
    write_u16_array_to_file(file, &tail);
    assert(be_words(tail@) =~= record_bytes(plain(GDSRecord::EndEl)));
}


/// A record that holds one double.
pub open spec fn number(kind: GDSRecord, value: Real) -> RecordView {
    RecordView { kind, layout: GDSDataType::EightByteReal, data: DataView::F64(seq![value]) }
}

/// A record that holds characters.
pub open spec fn characters(kind: GDSRecord, text: Seq<char>) -> RecordView {
    RecordView { kind, layout: GDSDataType::AsciiString, data: DataView::Str(text) }
}

/// The coordinates of a list of points, x before y, in the order of the points.
pub open spec fn coordinates(points: Seq<Point>) -> Seq<i32> {
    Seq::new(
        2 * points.len(),
        |i: int|
            if i % 2 == 0 {
                points[i / 2].x
            } else {
                points[i / 2].y
            },
    )
}

/// The coordinate record of a list of at most 8190 points.
pub open spec fn xy_record(points: Seq<Point>) -> RecordView {
    RecordView {
        kind: GDSRecord::XY,
        layout: GDSDataType::FourByteSignedInteger,
        data: DataView::I32(coordinates(points)),
    }
}

/// The coordinate records of a list of points: the points in order, 8190 to a record and
/// what is left in the last one. No points, no record.
pub open spec fn xy_records(points: Seq<Point>) -> Seq<RecordView>
    decreases points.len(),
{
    if points.len() == 0 {
        Seq::empty()
    } else if points.len() <= MAX_POLYGON_POINTS {
        seq![xy_record(points)]
    } else {
        seq![xy_record(points.take(MAX_POLYGON_POINTS as int))] + xy_records(
            points.skip(MAX_POLYGON_POINTS as int),
        )
    }
}

/// The records that say how an element is mirrored, enlarged and turned: none where it
/// is not mirrored, as large as it is and not turned; else the flags with the mirror in
/// the top bit, then the magnification unless it is one, then the angle unless it is
/// zero.
pub open spec fn transformation_records(
    angle: Real,
    magnification: Real,
    x_reflection: bool,
) -> Seq<RecordView> {
    if angle.zero_spec() && magnification.bits == ONE_BITS && !x_reflection {
        Seq::empty()
    } else {
        seq![
            short(
                GDSRecord::STrans,
                GDSDataType::BitArray,
                if x_reflection {
                    0x8000u16
                } else {
                    0u16
                },
            ),
        ] + (if magnification.bits == ONE_BITS {
            Seq::<RecordView>::empty()
        } else {
            seq![number(GDSRecord::Mag, magnification)]
        }) + (if angle.zero_spec() {
            Seq::<RecordView>::empty()
        } else {
            seq![number(GDSRecord::Angle, angle)]
        })
    }
}

/// The size of a database unit: in user units, and in metres.
#[derive(Debug, Clone, Copy, PartialEq, Eq, Structural)]
pub struct Units {
    pub user: Real,
    pub meters: Real,
}

/// The version of the stream format that the writer declares.
pub const STREAM_VERSION: u16 = 600;

/// The record that holds a pair of timestamps: when the thing was last changed, and when
/// it was last read. The writer gives the same moment for both.
pub open spec fn stamps(kind: GDSRecord, timestamp: Timestamp) -> RecordView {
    RecordView {
        kind,
        layout: GDSDataType::TwoByteSignedInteger,
        data: DataView::I16(
            Seq::new(12, |i: int| signed16((timestamp.words() + timestamp.words())[i])),
        ),
    }
}

/// The records that open a stream: the header with the version, the start of the
/// library with its timestamps, the library's name, and the units.
pub open spec fn head_records(name: Seq<char>, units: Units, timestamp: Timestamp) -> Seq<
    RecordView,
> {
    seq![
        short(GDSRecord::Header, GDSDataType::TwoByteSignedInteger, STREAM_VERSION),
        stamps(GDSRecord::BgnLib, timestamp),
        characters(GDSRecord::LibName, name),
        RecordView {
            kind: GDSRecord::Units,
            layout: GDSDataType::EightByteReal,
            data: DataView::F64(seq![units.user, units.meters]),
        },
    ]
}

/// Pushes the bytes onto `file`.
pub fn push_bytes(file: &mut Vec<u8>, bytes: &[u8])
    ensures
        final(file)@ == old(file)@ + bytes@,
{
    let mut index: usize = 0;
    while index < bytes.len()
        invariant
            index <= bytes.len(),
            file@ == old(file)@ + bytes@.take(index as int),
        decreases bytes.len() - index,
    {
        file.push(bytes[index]);
        assert(bytes@.take(index + 1) =~= bytes@.take(index as int).push(bytes@[index as int]));
        assert(file@ =~= old(file)@ + bytes@.take(index + 1));
        index = index + 1;
    }
    assert(bytes@.take(bytes.len() as int) =~= bytes@);
}

/// Writes a record without a payload.
pub fn write_plain_record(file: &mut Vec<u8>, kind: GDSRecord)
    ensures
        final(file)@ == old(file)@ + record_bytes(plain(kind)),
        record_fault(plain(kind)).is_none(),
{
    let words: [u16; 2] = [4, combine_record_and_data_type(kind, GDSDataType::NoData)];
    write_u16_array_to_file(file, &words);
    assert(be_words(words@) =~= record_bytes(plain(kind)));
}

/// Writes a record that holds one sixteen-bit word.
pub fn write_short_record(file: &mut Vec<u8>, kind: GDSRecord, layout: GDSDataType, word: u16)
    ensures
        final(file)@ == old(file)@ + record_bytes(short(kind, layout, word)),
        record_fault(short(kind, layout, word)).is_none(),
{
    let words: [u16; 3] = [6, combine_record_and_data_type(kind, layout), word];
    write_u16_array_to_file(file, &words);
    assert(be_words(words@) =~= record_bytes(short(kind, layout, word)));
}

/// Writes a number as an eight-byte real. A number that the format cannot hold is
/// refused, and nothing is written.
pub fn write_float_to_eight_byte_real_to_file(file: &mut Vec<u8>, value: Real) -> (result: Result<
    (),
    WriteError,
>)
    ensures
        representable(value) ==> result.is_ok() && final(file)@ == old(file)@ + be_u64(
            real_word(value),
        ),
        !representable(value) ==> result == Err::<(), WriteError>(WriteError::UnrepresentableReal)
            && final(file)@ == old(file)@,
{
    match eight_byte_real(value) {
        Some(bytes) => {
            push_bytes(file, &bytes);
            Ok(())
        },
        None => Err(WriteError::UnrepresentableReal),
    }
}

/// Writes a record that holds one double. A number that the format cannot hold is
/// refused, and nothing is written.
#[verifier::spinoff_prover]
pub fn write_number_record(file: &mut Vec<u8>, kind: GDSRecord, value: Real) -> (result: Result<
    (),
    WriteError,
>)
    ensures
        appended(old(file)@, final(file)@, result, seq![Item::Record(number(kind, value))]),
{
    proof {
        lemma_outcome_one(Item::Record(number(kind, value)));
        assert(seq![value][0] == value);
    }
    if eight_byte_real(value).is_none() {
        return Err(WriteError::UnrepresentableReal);
    }
    let words: [u16; 2] = [12, combine_record_and_data_type(kind, GDSDataType::EightByteReal)];
    write_u16_array_to_file(file, &words);
    let written = write_float_to_eight_byte_real_to_file(file, value);
    proof {
        assert(reals_bytes(seq![value]) =~= be_u64(real_word(value)));
        assert(be_words(words@) + be_u64(real_word(value)) =~= record_bytes(number(kind, value)));
        assert(file@ =~= old(file)@ + record_bytes(number(kind, value)));
    }
    Ok(())
}

/// Writes a record that holds characters: `string` in UTF-8, with a zero byte after it
/// where that makes the length even. A string of more than 65530 bytes is refused, and
/// nothing is written.
#[verifier::spinoff_prover]
pub fn write_string_with_record_to_file(file: &mut Vec<u8>, record: GDSRecord, string: &str) -> (result:
    Result<(), WriteError>)
    ensures
        appended(old(file)@, final(file)@, result, seq![Item::Record(characters(record, string@))]),
{
    proof {
        lemma_outcome_one(Item::Record(characters(record, string@)));
    }
    let bytes = string.as_bytes();
    let length = bytes.len();
    if length > MAX_PAYLOAD {
        return Err(WriteError::NameTooLong);
    }
    let odd = length % 2 == 1;
    let padded_length: usize = if odd {
        length + 1
    } else {
        length
    };
    let words: [u16; 2] = [
        (4 + padded_length) as u16,
        combine_record_and_data_type(record, GDSDataType::AsciiString),
    ];
    write_u16_array_to_file(file, &words);
    push_bytes(file, bytes);
    if odd {
        file.push(0);
    }
    proof {
        let payload = padded(encode_utf8(string@));
        assert(bytes@ == encode_utf8(string@));
        assert(be_words(words@) + payload =~= record_bytes(characters(record, string@)));
        assert(file@ =~= old(file)@ + record_bytes(characters(record, string@)));
    }
    Ok(())
}

/// Writes the records of a transformation. Where the magnification or the angle is a
/// number that the format cannot hold, nothing is written.
#[verifier::spinoff_prover]
pub fn write_transformation_to_file(
    file: &mut Vec<u8>,
    angle: Real,
    magnification: Real,
    x_reflection: bool,
) -> (result: Result<(), WriteError>)
    ensures
        appended(
            old(file)@,
            final(file)@,
            result,
            as_items(transformation_records(angle, magnification, x_reflection)),
        ),
{
    let ghost records = transformation_records(angle, magnification, x_reflection);
    let turned = !angle.is_zero();
    let enlarged = !magnification.is_one();
    if !turned && !enlarged && !x_reflection {
        proof {
            assert(as_items(records) =~= Seq::<Item>::empty());
            assert(file@ + Seq::<u8>::empty() =~= file@);
        }
        return Ok(());
    }
    let flags: u16 = if x_reflection {
        0x8000
    } else {
        0
    };
    let ghost first = short(GDSRecord::STrans, GDSDataType::BitArray, flags);
    let ghost second = if enlarged {
        seq![Item::Record(number(GDSRecord::Mag, magnification))]
    } else {
        Seq::<Item>::empty()
    };
    let ghost third = if turned {
        seq![Item::Record(number(GDSRecord::Angle, angle))]
    } else {
        Seq::<Item>::empty()
    };
    proof {
        assert(as_items(records) =~= (seq![Item::Record(first)] + second) + third);
        lemma_outcome_one(Item::Record(first));
        lemma_outcome_concat(seq![Item::Record(first)], second);
        lemma_outcome_concat(seq![Item::Record(first)] + second, third);
        assert(outcome(Seq::<Item>::empty()) == Ok::<Seq<u8>, WriteError>(Seq::empty()));
    }
    let start = file.len();
    write_short_record(file, GDSRecord::STrans, GDSDataType::BitArray, flags);
    if enlarged {
        match write_number_record(file, GDSRecord::Mag, magnification) {
            Err(error) => {
                file.truncate(start);
                assert(file@ =~= old(file)@);
                return Err(error);
            },
            Ok(_) => {},
        }
    }
    if turned {
        match write_number_record(file, GDSRecord::Angle, angle) {
            Err(error) => {
                file.truncate(start);
                assert(file@ =~= old(file)@);
                return Err(error);
            },
            Ok(_) => {},
        }
    }
    proof {
        let a = record_bytes(first);
        if let Ok(b) = outcome(second) {
            if let Ok(c) = outcome(third) {
                assert(file@ =~= old(file)@ + ((a + b) + c));
            }
        }
    }
    Ok(())
}


/// The bytes of the coordinate records of a list of points.
pub open spec fn xy_bytes(points: Seq<Point>) -> Seq<u8>
    decreases points.len(),
{
    if points.len() == 0 {
        Seq::empty()
    } else if points.len() <= MAX_POLYGON_POINTS {
        record_bytes(xy_record(points))
    } else {
        record_bytes(xy_record(points.take(MAX_POLYGON_POINTS as int))) + xy_bytes(
            points.skip(MAX_POLYGON_POINTS as int),
        )
    }
}

/// The items of two lists of records, one after the other, are the items of the lists
/// joined.
pub proof fn lemma_as_items_concat(first: Seq<RecordView>, second: Seq<RecordView>)
    ensures
        as_items(first + second) == as_items(first) + as_items(second),
{
    assert(as_items(first + second) =~= as_items(first) + as_items(second));
}

/// The items that write one record.
pub proof fn lemma_as_items_one(record: RecordView)
    ensures
        as_items(seq![record]) == seq![Item::Record(record)],
{
    assert(as_items(seq![record]) =~= seq![Item::Record(record)]);
}

/// A coordinate record of at most 8190 points can always be written.
pub proof fn lemma_xy_record_fits(points: Seq<Point>)
    requires
        points.len() <= MAX_POLYGON_POINTS,
    ensures
        record_fault(xy_record(points)).is_none(),
        data_bytes(xy_record(points).data).len() == 8 * points.len(),
{
}

/// The coordinate records of any list of points can be written, and their bytes are
/// those of the records one after the other.
pub proof fn lemma_xy_outcome(points: Seq<Point>)
    ensures
        outcome(as_items(xy_records(points))) == Ok::<Seq<u8>, WriteError>(xy_bytes(points)),
    decreases points.len(),
{
    if points.len() == 0 {
        assert(as_items(xy_records(points)) =~= Seq::<Item>::empty());
    } else if points.len() <= MAX_POLYGON_POINTS {
        lemma_xy_record_fits(points);
        lemma_as_items_one(xy_record(points));
        lemma_outcome_one(Item::Record(xy_record(points)));
    } else {
        let chunk = points.take(MAX_POLYGON_POINTS as int);
        let rest = points.skip(MAX_POLYGON_POINTS as int);
        lemma_xy_record_fits(chunk);
        lemma_xy_outcome(rest);
        lemma_as_items_one(xy_record(chunk));
        lemma_as_items_concat(seq![xy_record(chunk)], xy_records(rest));
        lemma_outcome_one(Item::Record(xy_record(chunk)));
        lemma_outcome_concat(seq![Item::Record(xy_record(chunk))], as_items(xy_records(rest)));
    }
}

/// Writes one coordinate record with the points from `from` up to `to`.
#[verifier::spinoff_prover]
fn write_xy_record(file: &mut Vec<u8>, points: &Vec<Point>, from: usize, to: usize)
    requires
        from <= to <= points.len(),
        to - from <= MAX_POLYGON_POINTS,
    ensures
        final(file)@ == old(file)@ + record_bytes(xy_record(points@.subrange(from as int, to as int))),
{
    let count: usize = to - from;
    let ghost chunk = points@.subrange(from as int, to as int);
    let ghost payload = i32s_bytes(coordinates(chunk));
    let words: [u16; 2] = [
        (4 + 8 * count) as u16,
        combine_record_and_data_type(GDSRecord::XY, GDSDataType::FourByteSignedInteger),
    ];
    write_u16_array_to_file(file, &words);
    let ghost base = file@;
    let mut index: usize = from;
    while index < to
        invariant
            from <= index <= to <= points.len(),
            chunk == points@.subrange(from as int, to as int),
            payload == i32s_bytes(coordinates(chunk)),
            file@ == base + payload.take(8 * (index - from)),
        decreases to - index,
    {
        let ghost before = file@;
        let ghost k = index - from;
        let point = points[index];
        push_u32(file, pattern_of(point.x));
        push_u32(file, pattern_of(point.y));
        proof {
            assert(chunk[k] == point);
            let added = be_u32(unsigned32(point.x)) + be_u32(unsigned32(point.y));
            assert(file@ =~= before + added);
            assert forall|j: int| 0 <= j < 8 implies payload[8 * k + j] == added[j] by {
                let position = 8 * k + j;
                if j < 4 {
                    assert(position / 4 == 2 * k);
                    assert(position % 4 == j);
                    assert(coordinates(chunk)[2 * k] == point.x);
                } else {
                    assert(position / 4 == 2 * k + 1);
                    assert(position % 4 == j - 4);
                    assert(coordinates(chunk)[2 * k + 1] == point.y);
                }
            }
            assert(payload.take(8 * (k + 1)) =~= payload.take(8 * k) + added);
            assert(file@ =~= base + payload.take(8 * (k + 1)));
        }
        index = index + 1;
    }
    proof {
        assert(payload.take(8 * (to - from)) =~= payload);
        assert(be_words(words@) + payload =~= record_bytes(xy_record(chunk)));
        assert(file@ =~= old(file)@ + record_bytes(xy_record(chunk)));
    }
}

/// Writes the points as coordinate records: in order, 8190 to a record, with no other
/// record between them.
#[verifier::spinoff_prover]
pub fn write_points_to_file(file: &mut Vec<u8>, points: &Vec<Point>)
    ensures
        final(file)@ == old(file)@ + xy_bytes(points@),
        appended(old(file)@, final(file)@, Ok::<(), WriteError>(()), as_items(xy_records(points@))),
{
    proof {
        lemma_xy_outcome(points@);
        assert(points@.skip(0) =~= points@);
    }
    let length = points.len();
    let mut start: usize = 0;
    while start < length
        invariant
            length == points.len(),
            start <= length,
            file@ + xy_bytes(points@.skip(start as int)) == old(file)@ + xy_bytes(points@),
        decreases length - start,
    {
        let end: usize = if length - start > MAX_POLYGON_POINTS {
            start + MAX_POLYGON_POINTS
        } else {
            length
        };
        let ghost before = file@;
        let ghost left = points@.skip(start as int);
        write_xy_record(file, points, start, end);
        proof {
            let chunk = points@.subrange(start as int, end as int);
            if length - start > MAX_POLYGON_POINTS {
                assert(left.take(MAX_POLYGON_POINTS as int) =~= chunk);
                assert(left.skip(MAX_POLYGON_POINTS as int) =~= points@.skip(end as int));
            } else {
                assert(left =~= chunk);
                assert(points@.skip(end as int) =~= Seq::<Point>::empty());
                assert(xy_bytes(points@.skip(end as int)) =~= Seq::<u8>::empty());
            }
            assert(xy_bytes(left) =~= record_bytes(xy_record(chunk)) + xy_bytes(
                points@.skip(end as int),
            ));
            assert(file@ + xy_bytes(points@.skip(end as int)) =~= before + xy_bytes(left));
        }
        start = end;
    }
    proof {
        assert(points@.skip(length as int) =~= Seq::<Point>::empty());
        assert(file@ + Seq::<u8>::empty() =~= file@);
    }
}

/// Writes a record that holds a pair of timestamps, twice the same moment.
#[verifier::spinoff_prover]
pub fn write_stamps(file: &mut Vec<u8>, kind: GDSRecord, timestamp: Timestamp)
    ensures
        final(file)@ == old(file)@ + record_bytes(stamps(kind, timestamp)),
        record_fault(stamps(kind, timestamp)).is_none(),
{
    let words: [u16; 14] = [
        28,
        combine_record_and_data_type(kind, GDSDataType::TwoByteSignedInteger),
        timestamp.year,
        timestamp.month,
        timestamp.day,
        timestamp.hour,
        timestamp.minute,
        timestamp.second,
        timestamp.year,
        timestamp.month,
        timestamp.day,
        timestamp.hour,
        timestamp.minute,
        timestamp.second,
    ];
    write_u16_array_to_file(file, &words);
    proof {
        let record = stamps(kind, timestamp);
        let twice = timestamp.words() + timestamp.words();
        assert(data_bytes(record.data).len() == 24);
        assert forall|i: int| 0 <= i < 24 implies be_words(words@)[4 + i] == data_bytes(
            record.data,
        )[i] by {
            let k = i / 2;
            assert(words@[2 + k] == twice[k]);
            assert(unsigned16(signed16(twice[k])) == twice[k]);
        }
        assert(be_words(words@) =~= record_bytes(record));
    }
}

/// Writes the records that open a stream. Where the name is too long, or a unit is a
/// number that the format cannot hold, nothing is written.
#[verifier::spinoff_prover]
pub fn write_gds_head_to_file(
    file: &mut Vec<u8>,
    library_name: &str,
    units: Units,
    timestamp: Timestamp,
) -> (result: Result<(), WriteError>)
    ensures
        appended(
            old(file)@,
            final(file)@,
            result,
            as_items(head_records(library_name@, units, timestamp)),
        ),
{
    let ghost version = short(GDSRecord::Header, GDSDataType::TwoByteSignedInteger, STREAM_VERSION);
    let ghost begin = stamps(GDSRecord::BgnLib, timestamp);
    let ghost name = characters(GDSRecord::LibName, library_name@);
    let ghost sizes = RecordView {
        kind: GDSRecord::Units,
        layout: GDSDataType::EightByteReal,
        data: DataView::F64(seq![units.user, units.meters]),
    };
    let ghost opening = seq![Item::Record(version), Item::Record(begin)];
    proof {
        let items = as_items(head_records(library_name@, units, timestamp));
        assert(items =~= (opening + seq![Item::Record(name)]) + seq![Item::Record(sizes)]);
        assert(opening =~= seq![Item::Record(version)] + seq![Item::Record(begin)]);
        lemma_outcome_one(Item::Record(version));
        lemma_outcome_one(Item::Record(begin));
        lemma_outcome_one(Item::Record(name));
        lemma_outcome_one(Item::Record(sizes));
        lemma_outcome_concat(seq![Item::Record(version)], seq![Item::Record(begin)]);
        lemma_outcome_concat(opening, seq![Item::Record(name)]);
        lemma_outcome_concat(opening + seq![Item::Record(name)], seq![Item::Record(sizes)]);
        assert(seq![units.user, units.meters][0] == units.user);
        assert(seq![units.user, units.meters][1] == units.meters);
    }
    let start = file.len();
    write_short_record(file, GDSRecord::Header, GDSDataType::TwoByteSignedInteger, STREAM_VERSION);
    write_stamps(file, GDSRecord::BgnLib, timestamp);
    match write_string_with_record_to_file(file, GDSRecord::LibName, library_name) {
        Err(error) => {
            file.truncate(start);
            assert(file@ =~= old(file)@);
            return Err(error);
        },
        Ok(_) => {},
    }
    if eight_byte_real(units.user).is_none() || eight_byte_real(units.meters).is_none() {
        file.truncate(start);
        assert(file@ =~= old(file)@);
        proof {
            if !representable(units.user) {
                assert(!representable(seq![units.user, units.meters][0]));
            } else {
                assert(!representable(seq![units.user, units.meters][1]));
            }
        }
        return Err(WriteError::UnrepresentableReal);
    }
    let ghost before = file@;
    let words: [u16; 2] = [20, combine_record_and_data_type(GDSRecord::Units, GDSDataType::EightByteReal)];
    write_u16_array_to_file(file, &words);
    let first = write_float_to_eight_byte_real_to_file(file, units.user);
    let second = write_float_to_eight_byte_real_to_file(file, units.meters);
    proof {
        let values = seq![units.user, units.meters];
        assert forall|i: int| 0 <= i < values.len() implies representable(#[trigger] values[i]) by {}
        assert(reals_bytes(values) =~= be_u64(real_word(units.user)) + be_u64(
            real_word(units.meters),
        ));
        assert(be_words(words@) + reals_bytes(values) =~= record_bytes(sizes));
        assert(file@ =~= before + record_bytes(sizes));
        assert(file@ =~= old(file)@ + (((record_bytes(version) + record_bytes(begin))
            + record_bytes(name)) + record_bytes(sizes)));
    }
    Ok(())
}

/// Writes the record that ends a stream.
pub fn write_gds_tail_to_file(file: &mut Vec<u8>)
    ensures
        final(file)@ == old(file)@ + record_bytes(plain(GDSRecord::EndLib)),
{
    write_plain_record(file, GDSRecord::EndLib);
}


/// A long list of points is split as it should be: into as many coordinate records as
/// it takes at 8190 points to a record, each but the last full, and the records hold
/// the points in their order.
#[verifier::spinoff_prover]
pub proof fn lemma_chunks(points: Seq<Point>)
    ensures
        xy_records(points).len() == (points.len() + MAX_POLYGON_POINTS - 1) / (
        MAX_POLYGON_POINTS as int),
        forall|k: int|
            0 <= k < xy_records(points).len() ==> #[trigger] xy_records(points)[k] == xy_record(
                points.subrange(
                    k * MAX_POLYGON_POINTS,
                    if (k + 1) * MAX_POLYGON_POINTS < points.len() {
                        (k + 1) * MAX_POLYGON_POINTS
                    } else {
                        points.len() as int
                    },
                ),
            ),
    decreases points.len(),
{
    let size = MAX_POLYGON_POINTS as int;
    if points.len() == 0 {
    } else if points.len() <= MAX_POLYGON_POINTS {
        assert(points.subrange(0, points.len() as int) =~= points);
    } else {
        let chunk = points.take(size);
        let rest = points.skip(size);
        lemma_chunks(rest);
        let records = xy_records(points);
        assert(records == seq![xy_record(chunk)] + xy_records(rest));
        assert forall|k: int| 0 <= k < records.len() implies #[trigger] records[k] == xy_record(
            points.subrange(
                k * size,
                if (k + 1) * size < points.len() {
                    (k + 1) * size
                } else {
                    points.len() as int
                },
            ),
        ) by {
            if k == 0 {
                assert(points.subrange(0, size) =~= chunk);
            } else {
                let j = k - 1;
                assert(records[k] == xy_records(rest)[j]);
                let high = if (j + 1) * size < rest.len() {
                    (j + 1) * size
                } else {
                    rest.len() as int
                };
                assert(rest.subrange(j * size, high) =~= points.subrange(
                    k * size,
                    if (k + 1) * size < points.len() {
                        (k + 1) * size
                    } else {
                        points.len() as int
                    },
                ));
            }
        }
    }
}

} // verus!
