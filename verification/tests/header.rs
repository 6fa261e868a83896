use smbioslib::{parse_header, DecodeError, Header, END_OF_TABLE, HEADER_SIZE};

#[test]
fn header_fields_are_read_in_order() {
    let buf = [0x08u8, 0x09, 0x01, 0x00, 0xFF];
    assert_eq!(
        parse_header(&buf, 0),
        Ok(Header { structure_type: 8, length: 9, handle: 1 })
    );
}

#[test]
fn header_handle_is_little_endian() {
    let buf = [0x01u8, 0x04, 0x34, 0x12];
    assert_eq!(parse_header(&buf, 0).unwrap().handle, 0x1234);
    let buf = [0x01u8, 0x04, 0xFF, 0xFF];
    assert_eq!(parse_header(&buf, 0).unwrap().handle, 0xFFFF);
}

#[test]
fn header_at_an_offset() {
    let buf = [0xAAu8, 0xBB, 0x7F, 0x04, 0x02, 0x01];
    assert_eq!(
        parse_header(&buf, 2),
        Ok(Header { structure_type: 127, length: 4, handle: 0x0102 })
    );
}

#[test]
fn header_needs_four_bytes() {
    assert_eq!(parse_header(&[], 0), Err(DecodeError::MalformedHeader));
    assert_eq!(parse_header(&[8, 9, 1], 0), Err(DecodeError::MalformedHeader));
    assert_eq!(parse_header(&[8, 9, 1, 0], 1), Err(DecodeError::MalformedHeader));
    assert_eq!(parse_header(&[8, 9, 1, 0], 4), Err(DecodeError::MalformedHeader));
    assert_eq!(parse_header(&[8, 9, 1, 0], 5), Err(DecodeError::MalformedHeader));
    assert_eq!(parse_header(&[8, 9, 1, 0], usize::MAX), Err(DecodeError::MalformedHeader));
}

#[test]
fn header_length_below_four_is_malformed() {
    for length in 0u8..4 {
        let buf = [0x01u8, length, 0x00, 0x00, 0x00, 0x00];
        assert_eq!(parse_header(&buf, 0), Err(DecodeError::MalformedHeader));
    }
    let buf = [0x01u8, 4, 0x00, 0x00, 0x00, 0x00];
    assert!(parse_header(&buf, 0).is_ok());
}

#[test]
fn header_of_the_end_of_table_marker() {
    let header = parse_header(&[127, 4, 0, 0], 0).unwrap();
    assert!(header.is_end_of_table());
    let header = parse_header(&[126, 4, 0, 0], 0).unwrap();
    assert!(!header.is_end_of_table());
    assert_eq!(END_OF_TABLE, 127);
    assert_eq!(HEADER_SIZE, 4);
}
