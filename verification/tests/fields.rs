use smbioslib::{Header, StringTable, Structure};

fn sample<'a>(bytes: &'a [u8], area: &'a [u8]) -> Structure<'a> {
    let header = Header { structure_type: bytes[0], length: bytes[1], handle: 0 };
    Structure::new(header, bytes, StringTable::new(area))
}

const BYTES: [u8; 16] = [
    0x01, 0x10, 0x00, 0x00, 0x11, 0x22, 0x33, 0x44, 0x55, 0x66, 0x77, 0x88, 0x99, 0xAA, 0xBB, 0xCC,
];

#[test]
fn byte_is_absent_from_the_declared_length_on() {
    let s = sample(&BYTES, b"");
    assert_eq!(s.get_byte(15), Some(0xCC));
    for offset in 16..64usize {
        assert_eq!(s.get_byte(offset), None);
    }
    assert_eq!(s.get_byte(255), None);
    assert_eq!(s.get_byte(256), None);
    assert_eq!(s.get_byte(usize::MAX), None);
}

#[test]
fn byte_is_absent_behind_a_declared_length_shorter_than_the_bytes() {
    let header = Header { structure_type: 1, length: 6, handle: 0 };
    let s = Structure::new(header, &BYTES, StringTable::new(b""));
    assert_eq!(s.get_byte(5), Some(0x22));
    assert_eq!(s.get_byte(6), None);
    assert_eq!(s.get_word(4), Some(0x2211));
    assert_eq!(s.get_word(5), None);
    assert_eq!(s.get_dword(2), Some(0x22110000));
    assert_eq!(s.get_dword(3), None);
    assert_eq!(s.get_qword(0), None);
}

#[test]
fn byte_is_absent_where_the_buffer_holds_fewer_bytes_than_declared() {
    let header = Header { structure_type: 1, length: 0x10, handle: 0 };
    let s = Structure::new(header, &BYTES[..6], StringTable::new(b""));
    assert_eq!(s.get_byte(5), Some(0x22));
    assert_eq!(s.get_byte(6), None);
    assert_eq!(s.get_word(5), None);
    assert_eq!(s.get_dword(3), None);
    assert_eq!(s.get_qword(0), None);
}

#[test]
fn bytes_are_read_at_their_offset() {
    let s = sample(&BYTES, b"");
    assert_eq!(s.get_byte(0), Some(0x01));
    assert_eq!(s.get_byte(1), Some(0x10));
    assert_eq!(s.get_byte(4), Some(0x11));
    assert_eq!(s.get_byte(11), Some(0x88));
}

#[test]
fn words_are_little_endian() {
    let s = sample(&BYTES, b"");
    assert_eq!(s.get_word(4), Some(0x2211));
    assert_eq!(s.get_word(5), Some(0x3322));
    assert_eq!(s.get_word(14), Some(0xCCBB));
    assert_eq!(s.get_word(15), None);
    assert_eq!(s.get_word(16), None);
    assert_eq!(s.get_word(usize::MAX), None);
}

#[test]
fn dwords_are_little_endian() {
    let s = sample(&BYTES, b"");
    assert_eq!(s.get_dword(4), Some(0x44332211));
    assert_eq!(s.get_dword(12), Some(0xCCBBAA99));
    assert_eq!(s.get_dword(13), None);
    assert_eq!(s.get_dword(usize::MAX - 1), None);
}

#[test]
fn qwords_are_little_endian() {
    let s = sample(&BYTES, b"");
    assert_eq!(s.get_qword(4), Some(0x8877665544332211));
    assert_eq!(s.get_qword(8), Some(0xCCBBAA9988776655));
    assert_eq!(s.get_qword(9), None);
    assert_eq!(s.get_qword(usize::MAX - 3), None);
}

#[test]
fn widest_values_are_read_whole() {
    let bytes = [0x01u8, 0x0C, 0, 0, 0xFF, 0xFF, 0xFF, 0xFF, 0xFF, 0xFF, 0xFF, 0xFF];
    let s = sample(&bytes, b"");
    assert_eq!(s.get_word(4), Some(u16::MAX));
    assert_eq!(s.get_dword(4), Some(u32::MAX));
    assert_eq!(s.get_qword(4), Some(u64::MAX));
}

#[test]
fn zero_is_a_value_and_not_an_absence() {
    let bytes = [0x01u8, 0x0C, 0, 0, 0, 0, 0, 0, 0, 0, 0, 0];
    let s = sample(&bytes, b"");
    assert_eq!(s.get_byte(4), Some(0));
    assert_eq!(s.get_word(4), Some(0));
    assert_eq!(s.get_dword(4), Some(0));
    assert_eq!(s.get_qword(4), Some(0));
    assert_eq!(s.get_byte(12), None);
}

#[test]
fn field_bytes_are_borrowed_from_the_formatted_area() {
    let s = sample(&BYTES, b"");
    assert_eq!(s.get_field(4, 3), Some(&BYTES[4..7]));
    assert_eq!(s.get_field(16, 0), Some(&BYTES[16..16]));
    assert_eq!(s.get_field(14, 3), None);
    assert_eq!(s.get_field(17, 0), None);
    assert_eq!(s.get_field(usize::MAX, 2), None);
    assert_eq!(s.get_field(2, usize::MAX), None);
    assert_eq!(s.bytes(), &BYTES[..]);
}

#[test]
fn string_field_resolves_its_index() {
    let bytes = [0x08u8, 0x09, 0x01, 0x00, 0x01, 0x05, 0x02, 0x07, 0x0B];
    let s = sample(&bytes, b"J101\0COM A");
    assert_eq!(s.get_string_index(4), Some("J101".to_string()));
    assert_eq!(s.get_string_index(6), Some("COM A".to_string()));
    assert_eq!(s.strings().count(), 2);
}

#[test]
fn string_field_with_index_zero_is_no_string() {
    let bytes = [0x08u8, 0x09, 0x01, 0x00, 0x00, 0x05, 0x00, 0x07, 0x0B];
    let s = sample(&bytes, b"J101\0COM A");
    assert_eq!(s.get_string_index(4), None);
    assert_eq!(s.get_string_index(6), None);
    let s = sample(&bytes, b"");
    assert_eq!(s.get_string_index(4), None);
}

#[test]
fn string_field_with_an_index_beyond_the_strings_is_no_string() {
    let bytes = [0x08u8, 0x09, 0x01, 0x00, 0x03, 0x05, 0xFF, 0x07, 0x0B];
    let s = sample(&bytes, b"J101\0COM A");
    assert_eq!(s.get_string_index(4), None);
    assert_eq!(s.get_string_index(5), None);
    assert_eq!(s.get_string_index(6), None);
    assert_eq!(s.get_string_index(7), None);
}

#[test]
fn string_field_behind_the_declared_length_is_no_string() {
    let bytes = [0x08u8, 0x05, 0x01, 0x00, 0x01, 0x02];
    let s = sample(&bytes, b"J101\0COM A");
    assert_eq!(s.get_string_index(4), Some("J101".to_string()));
    assert_eq!(s.get_string_index(5), None);
    assert_eq!(s.get_string_index(9), None);
    assert_eq!(s.get_string_index(usize::MAX), None);
}
