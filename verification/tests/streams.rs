use minidump_writer::format::{CpuInformation, SystemInfo};
use minidump_writer::streams::{
    Memory64ListStream, MemoryDescriptor, MemoryListStream, MinidumpModule, MinidumpStream,
    ModuleListStream, SystemInfoStream,
};

fn read_u32(bytes: &[u8], at: usize) -> u32 {
    u32::from_le_bytes([bytes[at], bytes[at + 1], bytes[at + 2], bytes[at + 3]])
}

fn read_u64(bytes: &[u8], at: usize) -> u64 {
    let mut raw = [0u8; 8];
    raw.copy_from_slice(&bytes[at..at + 8]);
    u64::from_le_bytes(raw)
}

fn read_text(bytes: &[u8], at: usize) -> String {
    let len = read_u32(bytes, at) as usize;
    let mut units: Vec<u16> = Vec::new();
    let mut i = 0;
    while i < len {
        units.push(u16::from_le_bytes([bytes[at + 4 + i], bytes[at + 5 + i]]));
        i += 2;
    }
    assert_eq!(&bytes[at + 4 + len..at + 6 + len], &[0u8, 0u8]);
    String::from_utf16(&units).unwrap()
}

fn module(base: u64, name: &str) -> MinidumpModule {
    MinidumpModule {
        base_of_image: base,
        size_of_image: 0x2000,
        checksum: 0xc0ffee,
        time_date_stamp: 0x5f5e100,
        name: name.to_string(),
    }
}

#[test]
fn stream_type_tags() {
    assert_eq!(ModuleListStream::default().stream_type(), 4);
    let list: MemoryListStream<Vec<u8>> = MemoryListStream::default();
    assert_eq!(list.stream_type(), 5);
    assert_eq!(SystemInfoStream::default().stream_type(), 7);
    let list64: Memory64ListStream<Vec<u8>> = Memory64ListStream::default();
    assert_eq!(list64.stream_type(), 9);
}

#[test]
fn empty_module_list_is_a_zero_count() {
    let mut out: Vec<u8> = Vec::new();
    ModuleListStream::default().write(1000, &mut out);
    assert_eq!(out, vec![0, 0, 0, 0]);
}

#[test]
fn empty_memory_lists() {
    let list: MemoryListStream<Vec<u8>> = MemoryListStream::default();
    let mut out: Vec<u8> = Vec::new();
    list.write(1000, &mut out);
    assert_eq!(out, vec![0, 0, 0, 0]);

    let list64: Memory64ListStream<Vec<u8>> = Memory64ListStream::default();
    let mut out64: Vec<u8> = Vec::new();
    list64.write(1000, &mut out64);
    let mut expected: Vec<u8> = Vec::new();
    expected.extend_from_slice(&0u64.to_le_bytes());
    expected.extend_from_slice(&1016u64.to_le_bytes());
    assert_eq!(out64, expected);
}

#[test]
fn module_records_and_names() {
    let mut list = ModuleListStream::default();
    list.add_module(module(0x7ff0_0000_0000, "kernel32.dll"));
    list.add_module(module(0x7ff0_1000_0000, "a"));
    list.add_module(module(0x7ff0_2000_0000, ""));
    let pos = 500usize;
    let mut out: Vec<u8> = Vec::new();
    list.write(pos, &mut out);

    assert_eq!(read_u32(&out, 0), 3);
    let names = ["kernel32.dll", "a", ""];
    let bases = [0x7ff0_0000_0000u64, 0x7ff0_1000_0000, 0x7ff0_2000_0000];
    // Names follow the three records: 30, 8 and 6 bytes long.
    let expected_rvas = [pos + 4 + 3 * 108, pos + 4 + 3 * 108 + 30, pos + 4 + 3 * 108 + 38];
    for k in 0..3 {
        let at = 4 + 108 * k;
        assert_eq!(read_u64(&out, at), bases[k]);
        assert_eq!(read_u32(&out, at + 8), 0x2000);
        assert_eq!(read_u32(&out, at + 12), 0xc0ffee);
        assert_eq!(read_u32(&out, at + 16), 0x5f5e100);
        let rva = read_u32(&out, at + 20) as usize;
        assert_eq!(rva, expected_rvas[k]);
        assert_eq!(&out[at + 24..at + 108], &[0u8; 84][..]);
        assert_eq!(read_text(&out, rva - pos), names[k]);
    }
    assert_eq!(out.len(), 4 + 3 * 108 + 30 + 8 + 6);
}

#[test]
fn module_name_is_length_prefixed_utf16_with_terminator() {
    let mut list = ModuleListStream::default();
    list.add_module(module(1, "epic.exe"));
    let mut out: Vec<u8> = Vec::new();
    list.write(0, &mut out);
    let mut blob: Vec<u8> = Vec::new();
    blob.extend_from_slice(&16u32.to_le_bytes());
    for unit in "epic.exe".encode_utf16() {
        blob.extend_from_slice(&unit.to_le_bytes());
    }
    blob.extend_from_slice(&[0, 0]);
    assert_eq!(&out[112..], &blob[..]);
}

#[test]
fn names_beyond_the_basic_plane_become_surrogate_pairs() {
    let name = "\u{1F600}\u{e9}z\u{10FFFF}\u{10000}\u{FFFF}\u{D7FF}\u{E000}.dll";
    let mut list = ModuleListStream::default();
    list.add_module(module(1, name));
    let mut out: Vec<u8> = Vec::new();
    list.write(0, &mut out);
    let units: Vec<u16> = name.encode_utf16().collect();
    assert_eq!(units.len(), 15);
    let at = read_u32(&out, 4 + 20) as usize;
    assert_eq!(at, 112);
    assert_eq!(read_u32(&out, at), 30);
    // The first scalar value is the pair D83D DE00.
    assert_eq!(&out[at + 4..at + 8], &[0x3d, 0xd8, 0x00, 0xde]);
    for (i, unit) in units.iter().enumerate() {
        assert_eq!(&out[at + 4 + 2 * i..at + 6 + 2 * i], &unit.to_le_bytes());
    }
    assert_eq!(read_text(&out, at), name);
}

#[test]
fn add_module_keeps_call_order() {
    let mut list = ModuleListStream::default();
    list.add_module(module(3, "c"));
    list.add_module(module(1, "a"));
    list.add_module(module(1, "a"));
    list.add_module(module(2, "b"));
    let mut out: Vec<u8> = Vec::new();
    list.write(0, &mut out);
    assert_eq!(read_u32(&out, 0), 4);
    let bases: Vec<u64> = (0..4).map(|k| read_u64(&out, 4 + 108 * k)).collect();
    assert_eq!(bases, vec![3, 1, 1, 2]);
    let names: Vec<String> =
        (0..4).map(|k| read_text(&out, read_u32(&out, 4 + 108 * k + 20) as usize)).collect();
    assert_eq!(names, vec!["c", "a", "a", "b"]);
}

#[test]
fn second_memory_rva_is_first_plus_thirteen() {
    let first: &'static [u8] = &[77, 90, 0xff, 1, 2, 3, 4, 5, 6, 7, 2, 3, 3];
    let second: &'static [u8] = &[37, 10, 0xf3, 1, 2, 3, 4, 5, 6, 7, 2, 3, 3, 1];
    let mut list = MemoryListStream::default();
    list.list.push(MemoryDescriptor { start_of_memory: 0xffffffaa345000, buf: first });
    list.list.push(MemoryDescriptor { start_of_memory: 0xffffffaa349000, buf: second });
    let pos = 176usize;
    let mut out: Vec<u8> = Vec::new();
    list.write(pos, &mut out);

    assert_eq!(read_u32(&out, 0), 2);
    assert_eq!(read_u64(&out, 4), 0xffffffaa345000);
    assert_eq!(read_u32(&out, 12), 13);
    let first_rva = read_u32(&out, 16);
    assert_eq!(read_u64(&out, 20), 0xffffffaa349000);
    assert_eq!(read_u32(&out, 28), 14);
    let second_rva = read_u32(&out, 32);
    assert_eq!(first_rva, 176 + 36);
    assert_eq!(second_rva, first_rva + 13);
    assert_eq!(&out[36..49], first);
    assert_eq!(&out[49..63], second);
    assert_eq!(out.len(), 63);
}

#[test]
fn memory64_buffers_follow_the_base_rva() {
    let sizes = [5usize, 0, 17, 1, 8];
    let mut list: Memory64ListStream<Vec<u8>> = Memory64ListStream::default();
    for (k, size) in sizes.iter().enumerate() {
        list.list.push(MemoryDescriptor {
            start_of_memory: 0x1000 * (k as u64 + 1),
            buf: vec![k as u8 + 1; *size],
        });
    }
    let pos = 4096usize;
    let mut out: Vec<u8> = Vec::new();
    list.write(pos, &mut out);

    assert_eq!(read_u64(&out, 0), 5);
    let base = read_u64(&out, 8) as usize;
    assert_eq!(base, pos + 16 + 5 * 16);
    let mut sum = 0usize;
    for (k, size) in sizes.iter().enumerate() {
        assert_eq!(read_u64(&out, 16 + 16 * k), 0x1000 * (k as u64 + 1));
        assert_eq!(read_u64(&out, 16 + 16 * k + 8), *size as u64);
        let at = base + sum - pos;
        assert_eq!(&out[at..at + size], &vec![k as u8 + 1; *size][..]);
        sum += size;
    }
    assert_eq!(out.len(), 16 + 5 * 16 + 31);
}

#[test]
fn offsets_keep_their_low_32_bits() {
    let mut list: MemoryListStream<Vec<u8>> = MemoryListStream::default();
    list.list.push(MemoryDescriptor { start_of_memory: 1, buf: vec![9, 9] });
    let mut out: Vec<u8> = Vec::new();
    list.write(0xffff_fff0, &mut out);
    // 0xfffffff0 + 4 + 16 = 0x1_0000_0004
    assert_eq!(read_u32(&out, 16), 4);

    let mut list64: Memory64ListStream<Vec<u8>> = Memory64ListStream::default();
    list64.list.push(MemoryDescriptor { start_of_memory: 1, buf: vec![9, 9] });
    let mut out64: Vec<u8> = Vec::new();
    list64.write(0xffff_fff0, &mut out64);
    assert_eq!(read_u64(&out64, 8), 0x1_0000_0010);
}

#[test]
fn system_info_defaults_are_zero() {
    let stream = SystemInfoStream::default();
    let info = &stream.system_info;
    assert_eq!(info.processor_architecture, 0);
    assert_eq!(info.processor_level, 0);
    assert_eq!(info.processor_revision, 0);
    assert_eq!(info.number_of_processors, 0);
    assert_eq!(info.product_type, 0);
    assert_eq!(info.major_version, 0);
    assert_eq!(info.minor_version, 0);
    assert_eq!(info.build_number, 0);
    assert_eq!(info.platform_id, 0);
    assert_eq!(info.csd_version_rva, 0);
    assert_eq!(info.suite_mask, 0);
    assert_eq!(info.reserved2, 0);
    assert_eq!(info.cpu.data, [0u8; 24]);
    assert_eq!(stream.service_pack_str, "");

    let mut out: Vec<u8> = Vec::new();
    stream.write(0, &mut out);
    let mut expected = vec![0u8; 62];
    expected[24] = 56;
    assert_eq!(out, expected);
}

#[test]
fn with_arch_and_version_sets_four_fields() {
    let stream = SystemInfoStream::with_arch_and_version(9, 10, 1, 19045);
    let info = &stream.system_info;
    assert_eq!(info.processor_architecture, 9);
    assert_eq!(info.major_version, 10);
    assert_eq!(info.minor_version, 1);
    assert_eq!(info.build_number, 19045);
    assert_eq!(info.processor_level, 0);
    assert_eq!(info.processor_revision, 0);
    assert_eq!(info.number_of_processors, 0);
    assert_eq!(info.product_type, 0);
    assert_eq!(info.platform_id, 0);
    assert_eq!(info.csd_version_rva, 0);
    assert_eq!(info.suite_mask, 0);
    assert_eq!(info.reserved2, 0);
    assert_eq!(info.cpu.data, [0u8; 24]);
    assert_eq!(stream.service_pack_str, "");
}

#[test]
fn with_arch_and_version_keeps_low_16_bits_of_arch() {
    let stream = SystemInfoStream::with_arch_and_version(0x12345, 0, 0, 0);
    assert_eq!(stream.system_info.processor_architecture, 0x2345);
}

#[test]
fn system_info_record_layout() {
    let mut cpu = [0u8; 24];
    for (i, b) in cpu.iter_mut().enumerate() {
        *b = 0xa0 + i as u8;
    }
    let stream = SystemInfoStream {
        system_info: SystemInfo {
            processor_architecture: 0x0102,
            processor_level: 0x0304,
            processor_revision: 0x0506,
            number_of_processors: 0x07,
            product_type: 0x08,
            major_version: 0x090a0b0c,
            minor_version: 0x0d0e0f10,
            build_number: 0x11121314,
            platform_id: 0x15161718,
            csd_version_rva: 0xdeadbeef,
            suite_mask: 0x191a,
            reserved2: 0x1b1c,
            cpu: CpuInformation { data: cpu },
        },
        service_pack_str: "SP1".to_string(),
    };
    let pos = 0x200usize;
    let mut out: Vec<u8> = Vec::new();
    stream.write(pos, &mut out);

    let mut expected: Vec<u8> = vec![
        0x02, 0x01, 0x04, 0x03, 0x06, 0x05, 0x07, 0x08, 0x0c, 0x0b, 0x0a, 0x09, 0x10, 0x0f, 0x0e,
        0x0d, 0x14, 0x13, 0x12, 0x11, 0x18, 0x17, 0x16, 0x15,
    ];
    expected.extend_from_slice(&(0x200u32 + 56).to_le_bytes());
    expected.extend_from_slice(&[0x1a, 0x19, 0x1c, 0x1b]);
    expected.extend_from_slice(&cpu);
    expected.extend_from_slice(&6u32.to_le_bytes());
    expected.extend_from_slice(&[b'S', 0, b'P', 0, b'1', 0, 0, 0]);
    assert_eq!(out, expected);
    assert_eq!(read_text(&out, 56), "SP1");
    // Writing leaves the stream as it was.
    assert_eq!(stream.system_info.csd_version_rva, 0xdeadbeef);
}

#[test]
fn write_appends_after_what_the_writer_holds() {
    let mut list = ModuleListStream::default();
    list.add_module(module(7, "m"));
    let mut alone: Vec<u8> = Vec::new();
    list.write(64, &mut alone);
    let mut out: Vec<u8> = vec![0xee; 5];
    list.write(64, &mut out);
    assert_eq!(&out[..5], &[0xee; 5]);
    assert_eq!(&out[5..], &alone[..]);
}
