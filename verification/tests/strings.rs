use smbioslib::{decode_string_area, latin1_string, DecodeError, StringTable};

fn texts(area: &[u8]) -> Vec<String> {
    StringTable::new(area).to_vec()
}

#[test]
fn string_area_without_strings_is_two_nul_bytes() {
    let buf = [0u8, 0, 0x7F, 0x04];
    let (table, size) = decode_string_area(&buf, 0).unwrap();
    assert_eq!(size, 2);
    assert_eq!(table.count(), 0);
    assert_eq!(table.to_vec(), Vec::<String>::new());
}

#[test]
fn string_area_with_two_strings() {
    let buf = b"J101\0COM A\0\0rest";
    let (table, size) = decode_string_area(buf, 0).unwrap();
    assert_eq!(size, 12);
    assert_eq!(table.count(), 2);
    assert_eq!(table.to_vec(), vec!["J101".to_string(), "COM A".to_string()]);
    assert_eq!(table.get(1), Some("J101".to_string()));
    assert_eq!(table.get(2), Some("COM A".to_string()));
}

#[test]
fn string_area_starts_at_the_given_offset() {
    let buf = b"\x01\x04\x00\x00abc\0\0";
    let (table, size) = decode_string_area(buf, 4).unwrap();
    assert_eq!(size, 5);
    assert_eq!(table.to_vec(), vec!["abc".to_string()]);
}

#[test]
fn string_area_keeps_order_and_duplicates() {
    let buf = b"b\0a\0b\0\0";
    let (table, size) = decode_string_area(buf, 0).unwrap();
    assert_eq!(size, 7);
    assert_eq!(table.to_vec(), vec!["b".to_string(), "a".to_string(), "b".to_string()]);
}

#[test]
fn string_area_last_run_without_terminator_is_a_string() {
    let buf = b"abc\0def";
    let (table, size) = decode_string_area(buf, 0).unwrap();
    assert_eq!(size, 7);
    assert_eq!(table.to_vec(), vec!["abc".to_string(), "def".to_string()]);
}

#[test]
fn string_area_that_ends_after_one_terminator() {
    let buf = b"abc\0";
    let (table, size) = decode_string_area(buf, 0).unwrap();
    assert_eq!(size, 4);
    assert_eq!(table.to_vec(), vec!["abc".to_string()]);

    let buf = b"\0";
    let (table, size) = decode_string_area(buf, 0).unwrap();
    assert_eq!(size, 1);
    assert_eq!(table.count(), 0);
}

#[test]
fn string_area_without_any_terminator_is_truncated() {
    assert_eq!(decode_string_area(b"abc", 0).err(), Some(DecodeError::TruncatedStrings));
    assert_eq!(decode_string_area(b"", 0).err(), Some(DecodeError::TruncatedStrings));
    assert_eq!(decode_string_area(b"\0\0abc", 2).err(), Some(DecodeError::TruncatedStrings));
}

#[test]
fn string_area_that_starts_at_or_behind_the_end_is_truncated() {
    let buf = b"abc\0\0";
    assert_eq!(decode_string_area(buf, 5).err(), Some(DecodeError::TruncatedStrings));
    assert_eq!(decode_string_area(buf, 6).err(), Some(DecodeError::TruncatedStrings));
    assert_eq!(decode_string_area(buf, usize::MAX).err(), Some(DecodeError::TruncatedStrings));
}

#[test]
fn string_area_ends_at_the_first_nul_pair() {
    let buf = b"a\0\0b\0\0";
    let (table, size) = decode_string_area(buf, 0).unwrap();
    assert_eq!(size, 3);
    assert_eq!(table.to_vec(), vec!["a".to_string()]);
}

#[test]
fn string_area_with_an_empty_first_run() {
    let buf = b"\0ab\0\0";
    let (table, size) = decode_string_area(buf, 0).unwrap();
    assert_eq!(size, 5);
    assert_eq!(table.to_vec(), vec!["".to_string(), "ab".to_string()]);
}

#[test]
fn string_index_zero_is_no_string() {
    assert_eq!(StringTable::new(b"J101\0COM A").get(0), None);
    assert_eq!(StringTable::new(b"").get(0), None);
    assert_eq!(StringTable::new(b"J101\0COM A").get_bytes(0), None);
}

#[test]
fn string_index_beyond_the_count_is_no_string() {
    let table = StringTable::new(b"J101\0COM A");
    assert_eq!(table.count(), 2);
    assert_eq!(table.get(3), None);
    assert_eq!(table.get(4), None);
    assert_eq!(table.get(255), None);
    assert_eq!(table.get_bytes(3), None);
    for index in 0..=255u8 {
        assert_eq!(StringTable::new(b"").get(index), None);
    }
}

#[test]
fn string_index_is_one_based() {
    let table = StringTable::new(b"one\0two\0three");
    assert_eq!(table.get(1), Some("one".to_string()));
    assert_eq!(table.get(2), Some("two".to_string()));
    assert_eq!(table.get(3), Some("three".to_string()));
    assert_eq!(table.get_bytes(2), Some(&b"two"[..]));
}

#[test]
fn string_table_counts_its_strings() {
    assert_eq!(StringTable::new(b"").count(), 0);
    assert_eq!(StringTable::new(b"a").count(), 1);
    assert_eq!(StringTable::new(b"a\0b").count(), 2);
    assert_eq!(StringTable::new(b"a\0b\0c").count(), 3);
    assert_eq!(texts(b"a\0b\0c"), vec!["a".to_string(), "b".to_string(), "c".to_string()]);
}

#[test]
fn string_table_with_255_strings() {
    let mut area: Vec<u8> = Vec::new();
    for i in 0..255u32 {
        if i > 0 {
            area.push(0);
        }
        area.extend_from_slice(format!("s{}", i + 1).as_bytes());
    }
    let table = StringTable::new(&area);
    assert_eq!(table.count(), 255);
    assert_eq!(table.get(1), Some("s1".to_string()));
    assert_eq!(table.get(128), Some("s128".to_string()));
    assert_eq!(table.get(255), Some("s255".to_string()));
}

#[test]
fn bytes_are_read_as_iso_8859_1() {
    assert_eq!(latin1_string(b"COM A"), "COM A".to_string());
    assert_eq!(latin1_string(&[0xE9, 0x74, 0xE9]), "\u{e9}t\u{e9}".to_string());
    assert_eq!(latin1_string(&[0xFF]), "\u{ff}".to_string());
    assert_eq!(latin1_string(&[]), String::new());
    assert_eq!(StringTable::new(&[0x41, 0xB5]).get(1), Some("A\u{b5}".to_string()));
}
