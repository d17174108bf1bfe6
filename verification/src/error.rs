use vstd::prelude::*;

verus! {

/// Why a shape was refused when it was made.
#[derive(Debug, Clone, Copy, PartialEq, Eq, Structural)]
pub enum GeometryError {
    /// The list of points was empty.
    EmptyPoints,
    /// A path had a single point, or a polygon fewer than three different points.
    TooFewPoints,
    /// The layer was outside 0 to 255.
    LayerOutOfRange,
}

/// Why a library refused a cell.
#[derive(Debug, Clone, Copy, PartialEq, Eq, Structural)]
pub enum LibraryError {
    /// The library already holds a cell of that name, and replacing was not asked for.
    /// `position` is the place of the refused cell among those handed in.
    DuplicateName { position: usize },
}

/// Why a library could not be written as a stream.
#[derive(Debug, Clone, Copy, PartialEq, Eq, Structural)]
pub enum WriteError {
    /// A name or a text is longer than the 65530 bytes that one record can carry.
    NameTooLong,
    /// A magnification, an angle or a unit is a number that no eight-byte real holds.
    UnrepresentableReal,
    /// A path has fewer than two points.
    PathTooShort,
    /// A reference places a bare element, and a copy that it stands for cannot be made
    /// in whole database units and without rounding: a grid takes a point off the whole
    /// units or beyond thirty-two signed bits, or an angle or a magnification that
    /// follows is no number that can be said exactly. Such a reference has to be
    /// expanded with doubles before the cell that holds it is written.
    ElementReference,
}

/// Why a stream could not be read as a library. `offset` is the position in the stream
/// of the first byte of the record that was refused.
#[derive(Debug, Clone, Copy, PartialEq, Eq, Structural)]
pub enum ReadError {
    /// The record declares more bytes than the stream has left.
    TruncatedRecord { offset: usize },
    /// The record has a payload, and a layout byte above 6.
    UnsupportedDataType { offset: usize, tag: u8 },
    /// The record's kind is none that the format knows. Its bytes have been passed
    /// over; the next record can be read.
    UnknownRecordType { offset: usize, tag: u8 },
    /// The stream does not begin with a header record.
    MissingHeader,
    /// A text's presentation flags name no pair of anchors.
    InvalidPresentation { value: u16 },
    /// A path's end-cap style is none of 0, 1 and 2.
    InvalidPathType { style: i32 },
}

} // verus!
