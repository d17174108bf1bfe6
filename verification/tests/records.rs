use gdsr::config::gds_file_types::{combine_record_and_data_type, GDSDataType, GDSRecord};
use gdsr::utils::gds_format::u16_array_to_big_endian;

#[test]
fn record_bytes_are_those_of_the_format() {
    assert_eq!(GDSRecord::Header.value(), 0x00);
    assert_eq!(GDSRecord::EndLib.value(), 0x04);
    assert_eq!(GDSRecord::XY.value(), 0x10);
    assert_eq!(GDSRecord::RaithPxxData.value(), 0x62);
    assert_eq!(GDSRecord::try_from(0x0B), Ok(GDSRecord::ARef));
    assert_eq!(GDSRecord::try_from(0x3C), Err(()));
    assert_eq!(GDSRecord::try_from(0xFF), Err(()));
}

#[test]
fn data_type_bytes_are_those_of_the_format() {
    assert_eq!(GDSDataType::try_from(0), Ok(GDSDataType::NoData));
    assert_eq!(GDSDataType::try_from(6), Ok(GDSDataType::AsciiString));
    assert_eq!(GDSDataType::try_from(7), Err(()));
    assert_eq!(GDSDataType::EightByteReal.value(), 5);
}

#[test]
fn tag_has_kind_high_and_layout_low() {
    assert_eq!(
        combine_record_and_data_type(GDSRecord::Header, GDSDataType::TwoByteSignedInteger),
        0x0002
    );
    assert_eq!(
        combine_record_and_data_type(GDSRecord::XY, GDSDataType::FourByteSignedInteger),
        0x1003
    );
    assert_eq!(
        combine_record_and_data_type(GDSRecord::String, GDSDataType::AsciiString),
        0x1906
    );
}

#[test]
fn words_become_big_endian_bytes() {
    assert_eq!(u16_array_to_big_endian(&[0x0102, 0xA0B0, 6]), vec![1, 2, 0xA0, 0xB0, 0, 6]);
    assert_eq!(u16_array_to_big_endian(&[]), Vec::<u8>::new());
}
