use minidump_writer::codec::{
    put_bytes, put_u16, put_u32, put_u64, put_zeros, truncate32, truncate64,
};
use minidump_writer::format::{
    put_directory_entry, put_header, put_memory_descriptor, put_memory_descriptor64,
    put_module_record, DIRECTORY_ENTRY_SIZE, HEADER_SIZE, MEMORY_DESCRIPTOR_SIZE,
    MODULE_RECORD_SIZE, SYSTEM_INFO_SIZE,
};
use minidump_writer::utf16::{encode_utf16, put_char, put_text};

#[test]
fn integers_are_packed_least_significant_byte_first() {
    let mut out: Vec<u8> = vec![0xff];
    put_u16(&mut out, 0x1234);
    put_u32(&mut out, 0x89abcdef);
    put_u64(&mut out, 0x0102030405060708);
    assert_eq!(
        out,
        vec![0xff, 0x34, 0x12, 0xef, 0xcd, 0xab, 0x89, 0x08, 0x07, 0x06, 0x05, 0x04, 0x03, 0x02, 0x01]
    );
}

#[test]
fn packing_agrees_with_to_le_bytes() {
    for x in [0u64, 1, 0xff, 0x100, 0xffff, 0x1_0000, 0xffff_ffff, 0x1_0000_0000, u64::MAX] {
        let mut out: Vec<u8> = Vec::new();
        put_u64(&mut out, x);
        assert_eq!(out, x.to_le_bytes());
        let mut out32: Vec<u8> = Vec::new();
        put_u32(&mut out32, x as u32);
        assert_eq!(out32, (x as u32).to_le_bytes());
        let mut out16: Vec<u8> = Vec::new();
        put_u16(&mut out16, x as u16);
        assert_eq!(out16, (x as u16).to_le_bytes());
    }
}

#[test]
fn zeros_and_raw_bytes() {
    let mut out: Vec<u8> = vec![1];
    put_zeros(&mut out, 3);
    put_bytes(&mut out, &[7, 8]);
    put_zeros(&mut out, 0);
    put_bytes(&mut out, &[]);
    assert_eq!(out, vec![1, 0, 0, 0, 7, 8]);
}

#[test]
fn truncation_keeps_the_low_bits() {
    assert_eq!(truncate32(0x1_2345_6789), 0x2345_6789);
    assert_eq!(truncate32(0xffff_ffff), 0xffff_ffff);
    assert_eq!(truncate32(0x1_0000_0000), 0);
    assert_eq!(truncate64(0x1_0000_0000_0000_0005), 5);
    assert_eq!(truncate64(u64::MAX as u128), u64::MAX);
}

#[test]
fn record_sizes() {
    assert_eq!(HEADER_SIZE, 32);
    assert_eq!(DIRECTORY_ENTRY_SIZE, 12);
    assert_eq!(MODULE_RECORD_SIZE, 108);
    assert_eq!(MEMORY_DESCRIPTOR_SIZE, 16);
    assert_eq!(SYSTEM_INFO_SIZE, 56);

    let mut header: Vec<u8> = Vec::new();
    put_header(&mut header, 3, 32);
    assert_eq!(header.len(), HEADER_SIZE);
    let mut entry: Vec<u8> = Vec::new();
    put_directory_entry(&mut entry, 4, 5, 6);
    assert_eq!(entry, vec![4, 0, 0, 0, 5, 0, 0, 0, 6, 0, 0, 0]);
    let mut record: Vec<u8> = Vec::new();
    put_module_record(&mut record, 1, 2, 3, 4, 5);
    assert_eq!(record.len(), MODULE_RECORD_SIZE);
    assert_eq!(&record[..24], &[
        1, 0, 0, 0, 0, 0, 0, 0, 2, 0, 0, 0, 3, 0, 0, 0, 4, 0, 0, 0, 5, 0, 0, 0
    ]);
    assert_eq!(&record[24..], &[0u8; 84][..]);
    let mut descriptor: Vec<u8> = Vec::new();
    put_memory_descriptor(&mut descriptor, 0x0807060504030201, 0x0c0b0a09, 0x100f0e0d);
    assert_eq!(descriptor, (1u8..=16).collect::<Vec<u8>>());
    let mut descriptor64: Vec<u8> = Vec::new();
    put_memory_descriptor64(&mut descriptor64, 0x0807060504030201, 0x100f0e0d0c0b0a09);
    assert_eq!(descriptor64, (1u8..=16).collect::<Vec<u8>>());
}

#[test]
fn header_bytes_are_exact() {
    let mut out: Vec<u8> = Vec::new();
    put_header(&mut out, 0x01020304, 32);
    let expected: Vec<u8> = vec![
        0x4d, 0x44, 0x4d, 0x50, 0x93, 0xa7, 0x00, 0x00, 0x04, 0x03, 0x02, 0x01, 0x20, 0x00, 0x00,
        0x00, 0, 0, 0, 0, 0, 0, 0, 0, 0, 0, 0, 0, 0, 0, 0, 0,
    ];
    assert_eq!(out, expected);
}

#[test]
fn code_units_of_single_scalar_values() {
    let cases: [(char, &[u8]); 7] = [
        ('A', &[0x41, 0x00]),
        ('\u{e9}', &[0xe9, 0x00]),
        ('\u{D7FF}', &[0xff, 0xd7]),
        ('\u{E000}', &[0x00, 0xe0]),
        ('\u{FFFF}', &[0xff, 0xff]),
        ('\u{10000}', &[0x00, 0xd8, 0x00, 0xdc]),
        ('\u{10FFFF}', &[0xff, 0xdb, 0xff, 0xdf]),
    ];
    for (c, expected) in cases {
        let mut out: Vec<u8> = Vec::new();
        put_char(&mut out, c);
        assert_eq!(&out[..], expected);
    }
}

#[test]
fn encode_utf16_agrees_with_std() {
    for text in ["", "epic.exe", "na\u{ef}ve \u{1F600} \u{4e2d}\u{6587}", "\u{10FFFF}\u{0}"] {
        let mut expected: Vec<u8> = Vec::new();
        for unit in text.encode_utf16() {
            expected.extend_from_slice(&unit.to_le_bytes());
        }
        assert_eq!(encode_utf16(text), expected);
    }
}

#[test]
fn stored_text_shape() {
    let mut out: Vec<u8> = vec![0x55];
    put_text(&mut out, "hi");
    assert_eq!(out, vec![0x55, 4, 0, 0, 0, b'h', 0, b'i', 0, 0, 0]);
    let mut empty: Vec<u8> = Vec::new();
    put_text(&mut empty, "");
    assert_eq!(empty, vec![0, 0, 0, 0, 0, 0]);
}
