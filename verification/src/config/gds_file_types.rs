use vstd::prelude::*;
use crate::number::Real;

verus! {

/// The kind of a record, as the third byte of its header names it.
#[derive(Debug, Clone, Copy, PartialEq, Eq, Structural)]
#[allow(dead_code)]
pub enum GDSRecord {
    /// Stream version, the first record of every stream.
    Header,
    /// Start of the library, with its two timestamps.
    BgnLib,
    /// Name of the library.
    LibName,
    /// Size of a database unit, in user units and in metres.
    Units,
    /// End of the library.
    EndLib,
    /// Start of a structure (a cell), with its two timestamps.
    BgnStr,
    /// Name of the structure.
    StrName,
    /// End of the structure.
    EndStr,
    /// Start of a polygon.
    Boundary,
    /// Start of a path.
    Path,
    /// Start of a single instance of a structure.
    SRef,
    /// Start of an array of instances of a structure.
    ARef,
    /// Start of a text label.
    Text,
    /// Layer of the open element.
    Layer,
    /// Data type of the open element.
    DataType,
    /// Width of the open path.
    Width,
    /// Coordinates of the open element.
    XY,
    /// End of the open element.
    EndEl,
    /// Name of the referenced structure.
    SName,
    /// Column and row counts of an array.
    ColRow,
    TextNode,
    Node,
    TextType,
    /// Text anchoring flags.
    Presentation,
    Spacing,
    /// Characters of a text label.
    String,
    /// Transform flags; the top bit is the mirror.
    STrans,
    /// Magnification.
    Mag,
    /// Rotation angle, in degrees.
    Angle,
    UInteger,
    UString,
    RefLibs,
    Fonts,
    /// End-cap style of the open path.
    PathType,
    Generations,
    AttrTable,
    StyTable,
    StrType,
    ElFlags,
    ElKey,
    LinkType,
    LinkKeys,
    NodeType,
    PropAttr,
    PropValue,
    Box,
    BoxType,
    Plex,
    BgnExtn,
    EndExtn,
    TapeNum,
    TapeCode,
    StrClass,
    Reserved,
    Format,
    Mask,
    EndMasks,
    LibDirSize,
    SrfName,
    LibSecur,
    RaithMbmsPath,
    RaithPxxData,
}

impl GDSRecord {
    /// The byte that stands for this kind of record in a stream.
    pub open spec fn code(self) -> u8 {
        match self {
            GDSRecord::Header => 0x00,
            GDSRecord::BgnLib => 0x01,
            GDSRecord::LibName => 0x02,
            GDSRecord::Units => 0x03,
            GDSRecord::EndLib => 0x04,
            GDSRecord::BgnStr => 0x05,
            GDSRecord::StrName => 0x06,
            GDSRecord::EndStr => 0x07,
            GDSRecord::Boundary => 0x08,
            GDSRecord::Path => 0x09,
            GDSRecord::SRef => 0x0A,
            GDSRecord::ARef => 0x0B,
            GDSRecord::Text => 0x0C,
            GDSRecord::Layer => 0x0D,
            GDSRecord::DataType => 0x0E,
            GDSRecord::Width => 0x0F,
            GDSRecord::XY => 0x10,
            GDSRecord::EndEl => 0x11,
            GDSRecord::SName => 0x12,
            GDSRecord::ColRow => 0x13,
            GDSRecord::TextNode => 0x14,
            GDSRecord::Node => 0x15,
            GDSRecord::TextType => 0x16,
            GDSRecord::Presentation => 0x17,
            GDSRecord::Spacing => 0x18,
            GDSRecord::String => 0x19,
            GDSRecord::STrans => 0x1A,
            GDSRecord::Mag => 0x1B,
            GDSRecord::Angle => 0x1C,
            GDSRecord::UInteger => 0x1D,
            GDSRecord::UString => 0x1E,
            GDSRecord::RefLibs => 0x1F,
            GDSRecord::Fonts => 0x20,
            GDSRecord::PathType => 0x21,
            GDSRecord::Generations => 0x22,
            GDSRecord::AttrTable => 0x23,
            GDSRecord::StyTable => 0x24,
            GDSRecord::StrType => 0x25,
            GDSRecord::ElFlags => 0x26,
            GDSRecord::ElKey => 0x27,
            GDSRecord::LinkType => 0x28,
            GDSRecord::LinkKeys => 0x29,
            GDSRecord::NodeType => 0x2A,
            GDSRecord::PropAttr => 0x2B,
            GDSRecord::PropValue => 0x2C,
            GDSRecord::Box => 0x2D,
            GDSRecord::BoxType => 0x2E,
            GDSRecord::Plex => 0x2F,
            GDSRecord::BgnExtn => 0x30,
            GDSRecord::EndExtn => 0x31,
            GDSRecord::TapeNum => 0x32,
            GDSRecord::TapeCode => 0x33,
            GDSRecord::StrClass => 0x34,
            GDSRecord::Reserved => 0x35,
            GDSRecord::Format => 0x36,
            GDSRecord::Mask => 0x37,
            GDSRecord::EndMasks => 0x38,
            GDSRecord::LibDirSize => 0x39,
            GDSRecord::SrfName => 0x3A,
            GDSRecord::LibSecur => 0x3B,
            GDSRecord::RaithMbmsPath => 0x5A,
            GDSRecord::RaithPxxData => 0x62,
        }
    }

    /// The byte that stands for this kind of record in a stream.
    pub fn value(&self) -> (code: u8)
        ensures
            code == self.code(),
    {
        match self {
            GDSRecord::Header => 0x00,
            GDSRecord::BgnLib => 0x01,
            GDSRecord::LibName => 0x02,
            GDSRecord::Units => 0x03,
            GDSRecord::EndLib => 0x04,
            GDSRecord::BgnStr => 0x05,
            GDSRecord::StrName => 0x06,
            GDSRecord::EndStr => 0x07,
            GDSRecord::Boundary => 0x08,
            GDSRecord::Path => 0x09,
            GDSRecord::SRef => 0x0A,
            GDSRecord::ARef => 0x0B,
            GDSRecord::Text => 0x0C,
            GDSRecord::Layer => 0x0D,
            GDSRecord::DataType => 0x0E,
            GDSRecord::Width => 0x0F,
            GDSRecord::XY => 0x10,
            GDSRecord::EndEl => 0x11,
            GDSRecord::SName => 0x12,
            GDSRecord::ColRow => 0x13,
            GDSRecord::TextNode => 0x14,
            GDSRecord::Node => 0x15,
            GDSRecord::TextType => 0x16,
            GDSRecord::Presentation => 0x17,
            GDSRecord::Spacing => 0x18,
            GDSRecord::String => 0x19,
            GDSRecord::STrans => 0x1A,
            GDSRecord::Mag => 0x1B,
            GDSRecord::Angle => 0x1C,
            GDSRecord::UInteger => 0x1D,
            GDSRecord::UString => 0x1E,
            GDSRecord::RefLibs => 0x1F,
            GDSRecord::Fonts => 0x20,
            GDSRecord::PathType => 0x21,
            GDSRecord::Generations => 0x22,
            GDSRecord::AttrTable => 0x23,
            GDSRecord::StyTable => 0x24,
            GDSRecord::StrType => 0x25,
            GDSRecord::ElFlags => 0x26,
            GDSRecord::ElKey => 0x27,
            GDSRecord::LinkType => 0x28,
            GDSRecord::LinkKeys => 0x29,
            GDSRecord::NodeType => 0x2A,
            GDSRecord::PropAttr => 0x2B,
            GDSRecord::PropValue => 0x2C,
            GDSRecord::Box => 0x2D,
            GDSRecord::BoxType => 0x2E,
            GDSRecord::Plex => 0x2F,
            GDSRecord::BgnExtn => 0x30,
            GDSRecord::EndExtn => 0x31,
            GDSRecord::TapeNum => 0x32,
            GDSRecord::TapeCode => 0x33,
            GDSRecord::StrClass => 0x34,
            GDSRecord::Reserved => 0x35,
            GDSRecord::Format => 0x36,
            GDSRecord::Mask => 0x37,
            GDSRecord::EndMasks => 0x38,
            GDSRecord::LibDirSize => 0x39,
            GDSRecord::SrfName => 0x3A,
            GDSRecord::LibSecur => 0x3B,
            GDSRecord::RaithMbmsPath => 0x5A,
            GDSRecord::RaithPxxData => 0x62,
        }
    }

    /// Whether some kind of record has `value` as its byte.
    pub open spec fn is_code(value: u8) -> bool {
        exists|record: GDSRecord| record.code() == value
    }

    /// The kind of record that `value` stands for; an error when it stands for none.
    pub fn try_from(value: u8) -> (result: Result<GDSRecord, ()>)
        ensures
            match result {
                Ok(record) => record.code() == value,
                Err(_) => !GDSRecord::is_code(value),
            },
    {
        match value {
            0x00 => Ok(GDSRecord::Header),
            0x01 => Ok(GDSRecord::BgnLib),
            0x02 => Ok(GDSRecord::LibName),
            0x03 => Ok(GDSRecord::Units),
            0x04 => Ok(GDSRecord::EndLib),
            0x05 => Ok(GDSRecord::BgnStr),
            0x06 => Ok(GDSRecord::StrName),
            0x07 => Ok(GDSRecord::EndStr),
            0x08 => Ok(GDSRecord::Boundary),
            0x09 => Ok(GDSRecord::Path),
            0x0A => Ok(GDSRecord::SRef),
            0x0B => Ok(GDSRecord::ARef),
            0x0C => Ok(GDSRecord::Text),
            0x0D => Ok(GDSRecord::Layer),
            0x0E => Ok(GDSRecord::DataType),
            0x0F => Ok(GDSRecord::Width),
            0x10 => Ok(GDSRecord::XY),
            0x11 => Ok(GDSRecord::EndEl),
            0x12 => Ok(GDSRecord::SName),
            0x13 => Ok(GDSRecord::ColRow),
            0x14 => Ok(GDSRecord::TextNode),
            0x15 => Ok(GDSRecord::Node),
            0x16 => Ok(GDSRecord::TextType),
            0x17 => Ok(GDSRecord::Presentation),
            0x18 => Ok(GDSRecord::Spacing),
            0x19 => Ok(GDSRecord::String),
            0x1A => Ok(GDSRecord::STrans),
            0x1B => Ok(GDSRecord::Mag),
            0x1C => Ok(GDSRecord::Angle),
            0x1D => Ok(GDSRecord::UInteger),
            0x1E => Ok(GDSRecord::UString),
            0x1F => Ok(GDSRecord::RefLibs),
            0x20 => Ok(GDSRecord::Fonts),
            0x21 => Ok(GDSRecord::PathType),
            0x22 => Ok(GDSRecord::Generations),
            0x23 => Ok(GDSRecord::AttrTable),
            0x24 => Ok(GDSRecord::StyTable),
            0x25 => Ok(GDSRecord::StrType),
            0x26 => Ok(GDSRecord::ElFlags),
            0x27 => Ok(GDSRecord::ElKey),
            0x28 => Ok(GDSRecord::LinkType),
            0x29 => Ok(GDSRecord::LinkKeys),
            0x2A => Ok(GDSRecord::NodeType),
            0x2B => Ok(GDSRecord::PropAttr),
            0x2C => Ok(GDSRecord::PropValue),
            0x2D => Ok(GDSRecord::Box),
            0x2E => Ok(GDSRecord::BoxType),
            0x2F => Ok(GDSRecord::Plex),
            0x30 => Ok(GDSRecord::BgnExtn),
            0x31 => Ok(GDSRecord::EndExtn),
            0x32 => Ok(GDSRecord::TapeNum),
            0x33 => Ok(GDSRecord::TapeCode),
            0x34 => Ok(GDSRecord::StrClass),
            0x35 => Ok(GDSRecord::Reserved),
            0x36 => Ok(GDSRecord::Format),
            0x37 => Ok(GDSRecord::Mask),
            0x38 => Ok(GDSRecord::EndMasks),
            0x39 => Ok(GDSRecord::LibDirSize),
            0x3A => Ok(GDSRecord::SrfName),
            0x3B => Ok(GDSRecord::LibSecur),
            0x5A => Ok(GDSRecord::RaithMbmsPath),
            0x62 => Ok(GDSRecord::RaithPxxData),
            _ => Err(()),
        }
    }
}

/// How the payload of a record is laid out, as the fourth byte of its header names it.
#[derive(Debug, Clone, Copy, PartialEq, Eq, Structural)]
#[allow(dead_code)]
pub enum GDSDataType {
    NoData,
    BitArray,
    TwoByteSignedInteger,
    FourByteSignedInteger,
    FourByteReal,
    EightByteReal,
    AsciiString,
}

impl GDSDataType {
    /// The byte that stands for this layout in a stream.
    pub open spec fn code(self) -> u8 {
        match self {
            GDSDataType::NoData => 0,
            GDSDataType::BitArray => 1,
            GDSDataType::TwoByteSignedInteger => 2,
            GDSDataType::FourByteSignedInteger => 3,
            GDSDataType::FourByteReal => 4,
            GDSDataType::EightByteReal => 5,
            GDSDataType::AsciiString => 6,
        }
    }

    /// The byte that stands for this layout in a stream.
    pub fn value(&self) -> (code: u8)
        ensures
            code == self.code(),
    {
        match self {
            GDSDataType::NoData => 0,
            GDSDataType::BitArray => 1,
            GDSDataType::TwoByteSignedInteger => 2,
            GDSDataType::FourByteSignedInteger => 3,
            GDSDataType::FourByteReal => 4,
            GDSDataType::EightByteReal => 5,
            GDSDataType::AsciiString => 6,
        }
    }

    /// The layout that `value` stands for; an error when `value` is above 6.
    pub fn try_from(value: u8) -> (result: Result<GDSDataType, ()>)
        ensures
            match result {
                Ok(data_type) => data_type.code() == value,
                Err(_) => value > 6,
            },
    {
        match value {
            0 => Ok(GDSDataType::NoData),
            1 => Ok(GDSDataType::BitArray),
            2 => Ok(GDSDataType::TwoByteSignedInteger),
            3 => Ok(GDSDataType::FourByteSignedInteger),
            4 => Ok(GDSDataType::FourByteReal),
            5 => Ok(GDSDataType::EightByteReal),
            6 => Ok(GDSDataType::AsciiString),
            _ => Err(()),
        }
    }
}

/// The two bytes that follow the length in a record's header, as one big-endian number:
/// the record's kind in the high byte, the payload's layout in the low byte.
pub open spec fn record_tag(record: GDSRecord, data_type: GDSDataType) -> int {
    record.code() * 256 + data_type.code()
}

/// Packs a record's kind and its payload's layout into the second word of its header.
pub fn combine_record_and_data_type(record: GDSRecord, data_type: GDSDataType) -> (tag: u16)
    ensures
        tag == record_tag(record, data_type),
{
    let high: u16 = record.value() as u16;
    let low: u16 = data_type.value() as u16;
    high * 256 + low
}

/// The payload of a record, decoded as its layout says.
#[derive(Debug)]
pub enum GDSRecordData {
    /// Signed sixteen-bit numbers; a bit array is read as one of them.
    I16(Vec<i16>),
    /// Signed thirty-two-bit numbers.
    I32(Vec<i32>),
    /// Eight-byte reals, each as the nearest double.
    F64(Vec<Real>),
    /// Characters.
    Str(String),
    /// No payload.
    Empty,
}

/// What the payload of a record is.
pub enum DataView {
    I16(Seq<i16>),
    I32(Seq<i32>),
    F64(Seq<Real>),
    Str(Seq<char>),
    Empty,
}

impl View for GDSRecordData {
    type V = DataView;

    open spec fn view(&self) -> DataView {
        match self {
            GDSRecordData::I16(values) => DataView::I16(values@),
            GDSRecordData::I32(values) => DataView::I32(values@),
            GDSRecordData::F64(values) => DataView::F64(values@),
            GDSRecordData::Str(text) => DataView::Str(text@),
            GDSRecordData::Empty => DataView::Empty,
        }
    }
}

/// The largest number of points that one coordinate record carries.
pub const MAX_POLYGON_POINTS: usize = 8190;

} // verus!
