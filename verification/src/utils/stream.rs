use vstd::prelude::*;
use vstd::utf8::encode_utf8;
use crate::config::gds_file_types::{DataView, GDSDataType, GDSRecord};
use crate::error::WriteError;
use crate::number::Real;
use crate::utils::bytes::{be_u16, i16s_bytes, i32s_bytes, padded};
use crate::utils::gds_format::{be_u64, real_word, representable};

verus! {

/// One record of a stream, as the writer means it: its kind, the layout of its payload,
/// and the payload itself.
pub struct RecordView {
    pub kind: GDSRecord,
    pub layout: GDSDataType,
    pub data: DataView,
}

/// One step of writing: a record to be written, or a fault that ends the writing.
pub enum Item {
    Record(RecordView),
    Fault(WriteError),
}

/// The bytes of a list of doubles, each as an eight-byte real, most significant byte
/// first.
pub open spec fn reals_bytes(values: Seq<Real>) -> Seq<u8> {
    Seq::new(8 * values.len(), |i: int| be_u64(real_word(values[i / 8]))[i % 8])
}

/// The payload bytes of a record: numbers most significant byte first, characters in
/// UTF-8 and made even in length by a zero byte.
pub open spec fn data_bytes(data: DataView) -> Seq<u8> {
    match data {
        DataView::Empty => Seq::empty(),
        DataView::I16(values) => i16s_bytes(values),
        DataView::I32(values) => i32s_bytes(values),
        DataView::F64(values) => reals_bytes(values),
        DataView::Str(text) => padded(encode_utf8(text)),
    }
}

/// The largest payload that one record can carry: what is left of 65535 bytes after the
/// header, rounded down to an even number.
pub const MAX_PAYLOAD: usize = 65530;

/// Why a record cannot be written, if it cannot: its payload is too long, or it holds a
/// number that no eight-byte real holds.
pub open spec fn record_fault(record: RecordView) -> Option<WriteError> {
    match record.data {
        DataView::F64(values) => if exists|i: int|
            0 <= i < values.len() && !representable(#[trigger] values[i]) {
            Some(WriteError::UnrepresentableReal)
        } else if data_bytes(record.data).len() > MAX_PAYLOAD {
            Some(WriteError::NameTooLong)
        } else {
            None
        },
        _ => if data_bytes(record.data).len() > MAX_PAYLOAD {
            Some(WriteError::NameTooLong)
        } else {
            None
        },
    }
}

/// The bytes of one record: the length of the whole record, its kind, the layout of its
/// payload, and the payload.
pub open spec fn record_bytes(record: RecordView) -> Seq<u8> {
    be_u16((4 + data_bytes(record.data).len()) as u16) + seq![
        record.kind.code(),
        record.layout.code(),
    ] + data_bytes(record.data)
}

/// What writing the items gives: the bytes of the records one after the other, or the
/// first fault met on the way, be it an item that is a fault or a record that cannot be
/// written.
pub open spec fn outcome(items: Seq<Item>) -> Result<Seq<u8>, WriteError>
    decreases items.len(),
{
    if items.len() == 0 {
        Ok(Seq::empty())
    } else {
        match outcome(items.drop_last()) {
            Err(error) => Err(error),
            Ok(bytes) => match items.last() {
                Item::Fault(error) => Err(error),
                Item::Record(record) => match record_fault(record) {
                    Some(error) => Err(error),
                    None => Ok(bytes + record_bytes(record)),
                },
            },
        }
    }
}

/// What a step of the writer has done to the bytes written so far, given the items it
/// was to write: added their bytes, or met their first fault and left the bytes as they
/// were.
pub open spec fn appended(
    before: Seq<u8>,
    after: Seq<u8>,
    result: Result<(), WriteError>,
    items: Seq<Item>,
) -> bool {
    match outcome(items) {
        Ok(bytes) => result.is_ok() && after == before + bytes,
        Err(error) => result == Err::<(), WriteError>(error) && after == before,
    }
}

/// The items that write the given records.
pub open spec fn as_items(records: Seq<RecordView>) -> Seq<Item> {
    Seq::new(records.len(), |i: int| Item::Record(records[i]))
}

/// Writing one list of items after another gives the bytes of the first followed by the
/// bytes of the second, or the first fault of the two.
pub proof fn lemma_outcome_concat(first: Seq<Item>, second: Seq<Item>)
    ensures
        outcome(first + second) == match outcome(first) {
            Err(error) => Err::<Seq<u8>, WriteError>(error),
            Ok(bytes) => match outcome(second) {
                Err(error) => Err::<Seq<u8>, WriteError>(error),
                Ok(more) => Ok::<Seq<u8>, WriteError>(bytes + more),
            },
        },
    decreases second.len(),
{
    if second.len() == 0 {
        assert(first + second =~= first);
        if let Ok(bytes) = outcome(first) {
            assert(bytes + Seq::<u8>::empty() =~= bytes);
        }
    } else {
        assert((first + second).drop_last() =~= first + second.drop_last());
        assert((first + second).last() == second.last());
        lemma_outcome_concat(first, second.drop_last());
        if let Ok(bytes) = outcome(first) {
            if let Ok(more) = outcome(second.drop_last()) {
                if let Item::Record(record) = second.last() {
                    assert((bytes + more) + record_bytes(record) =~= bytes + (more + record_bytes(
                        record,
                    )));
                }
            }
        }
    }
}

/// What writing a single item gives.
pub proof fn lemma_outcome_one(item: Item)
    ensures
        outcome(seq![item]) == match item {
            Item::Fault(error) => Err::<Seq<u8>, WriteError>(error),
            Item::Record(record) => match record_fault(record) {
                Some(error) => Err::<Seq<u8>, WriteError>(error),
                None => Ok::<Seq<u8>, WriteError>(record_bytes(record)),
            },
        },
{
    let items = seq![item];
    assert(items.drop_last() =~= Seq::<Item>::empty());
    assert(items.last() == item);
    assert(outcome(items.drop_last()) == Ok::<Seq<u8>, WriteError>(Seq::empty()));
    if let Item::Record(record) = item {
        assert(Seq::<u8>::empty() + record_bytes(record) =~= record_bytes(record));
    }
}

} // verus!
