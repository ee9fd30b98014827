//! The fixed-size records of the container, each written field by field in
//! its published order and width, least significant byte first.

use crate::codec::{
    lemma_read_u16, lemma_read_u32, lemma_read_u64, put_bytes, put_u16, put_u32, put_u64,
    put_zeros, read_u32, read_u64, u16_le, u32_le, u64_le, zeros,
};
use crate::window::{lemma_read_u32_at, lemma_read_u64_at};
use vstd::prelude::*;

verus! {

/// Bytes taken by the header.
pub const HEADER_SIZE: usize = 32;

/// Bytes taken by one directory entry.
pub const DIRECTORY_ENTRY_SIZE: usize = 12;

/// Bytes taken by one module record.
pub const MODULE_RECORD_SIZE: usize = 108;

/// Bytes taken by one memory descriptor, in either list form.
pub const MEMORY_DESCRIPTOR_SIZE: usize = 16;

/// Bytes taken by the system-info record.
pub const SYSTEM_INFO_SIZE: usize = 56;

/// Bytes taken by the file-version block of a module record.
pub const VERSION_INFO_SIZE: usize = 52;

/// Bytes taken by a location descriptor: a 32-bit size and a 32-bit offset.
pub const LOCATION_DESCRIPTOR_SIZE: usize = 8;

/// Tag of a module-list stream.
pub const MODULE_LIST_STREAM: u32 = 4;

/// Tag of a memory-list stream.
pub const MEMORY_LIST_STREAM: u32 = 5;

/// Tag of a system-info stream.
pub const SYSTEM_INFO_STREAM: u32 = 7;

/// Tag of a 64-bit memory-list stream.
pub const MEMORY64_LIST_STREAM: u32 = 9;

/// The magic number that opens a dump; its four bytes spell `MDMP`.
pub open spec fn signature_value() -> u32 {
    0x504d_444d
}

/// The format version that the header carries.
pub open spec fn version_value() -> u32 {
    42899
}

/// Reads `minidump_common::format::MINIDUMP_SIGNATURE`. Taken on trust, not
/// proved: that constant is `0x504d444d`.
#[verifier::external_body]
fn signature() -> (sig: u32)
    ensures
        sig == signature_value(),
{
    minidump_common::format::MINIDUMP_SIGNATURE
}

/// Reads `minidump_common::format::MINIDUMP_VERSION`. Taken on trust, not
/// proved: that constant is `42899`.
#[verifier::external_body]
fn version() -> (ver: u32)
    ensures
        ver == version_value(),
{
    minidump_common::format::MINIDUMP_VERSION
}

/// The processor-specific block of the system-info record, kept as raw bytes.
#[derive(Clone, Copy, Debug)]
pub struct CpuInformation {
    pub data: [u8; 24],
}

/// Processor and operating-system description, field for field as the
/// system-info record stores it.
#[derive(Clone, Copy, Debug)]
pub struct SystemInfo {
    pub processor_architecture: u16,
    pub processor_level: u16,
    pub processor_revision: u16,
    pub number_of_processors: u8,
    pub product_type: u8,
    pub major_version: u32,
    pub minor_version: u32,
    pub build_number: u32,
    pub platform_id: u32,
    pub csd_version_rva: u32,
    pub suite_mask: u16,
    pub reserved2: u16,
    pub cpu: CpuInformation,
}

/// The header of a dump with `stream_count` streams whose directory starts at
/// `directory_rva`. Checksum, timestamp and flags are zero.
pub open spec fn header_bytes(stream_count: u32, directory_rva: u32) -> Seq<u8> {
    u32_le(signature_value()) + u32_le(version_value()) + u32_le(stream_count) + u32_le(
        directory_rva,
    ) + u32_le(0) + u32_le(0) + u64_le(0)
}

/// A directory entry: the stream's tag, the size of its payload and the
/// absolute offset of its payload.
pub open spec fn directory_entry_bytes(stream_type: u32, data_size: u32, rva: u32) -> Seq<u8> {
    u32_le(stream_type) + u32_le(data_size) + u32_le(rva)
}

/// A module record whose name is stored at `name_rva`. The file-version
/// block, the two debug-record locations and the reserved words are zero.
pub open spec fn module_record_bytes(
    base_of_image: u64,
    size_of_image: u32,
    checksum: u32,
    time_date_stamp: u32,
    name_rva: u32,
) -> Seq<u8> {
    u64_le(base_of_image) + u32_le(size_of_image) + u32_le(checksum) + u32_le(time_date_stamp)
        + u32_le(name_rva) + zeros(VERSION_INFO_SIZE as int) + zeros(
        2 * LOCATION_DESCRIPTOR_SIZE as int,
    ) + zeros(16)
}

/// A memory descriptor with a 32-bit location: start address, size, offset.
pub open spec fn memory_descriptor_bytes(start: u64, data_size: u32, rva: u32) -> Seq<u8> {
    u64_le(start) + u32_le(data_size) + u32_le(rva)
}

/// A memory descriptor of the 64-bit list: start address and size.
pub open spec fn memory_descriptor64_bytes(start: u64, data_size: u64) -> Seq<u8> {
    u64_le(start) + u64_le(data_size)
}

/// The system-info record for `info`, with `csd_rva` in place of the stored
/// service-pack offset.
pub open spec fn system_info_bytes(info: SystemInfo, csd_rva: u32) -> Seq<u8> {
    u16_le(info.processor_architecture) + u16_le(info.processor_level) + u16_le(
        info.processor_revision,
    ) + seq![info.number_of_processors, info.product_type] + u32_le(info.major_version) + u32_le(
        info.minor_version,
    ) + u32_le(info.build_number) + u32_le(info.platform_id) + u32_le(csd_rva) + u16_le(
        info.suite_mask,
    ) + u16_le(info.reserved2) + info.cpu.data@
}

/// Zero packs to zero bytes.
pub proof fn lemma_zero_fields()
    ensures
        u16_le(0) == zeros(2),
        u32_le(0) == zeros(4),
        u64_le(0) == zeros(8),
{
    reveal(u16_le);
    reveal(u32_le);
    reveal(u64_le);
    assert(u16_le(0) =~= zeros(2));
    assert(u32_le(0) =~= zeros(4));
    assert(u64_le(0) =~= zeros(8));
}

/// Where the fields of the header lie.
pub proof fn lemma_header_fields(stream_count: u32, directory_rva: u32)
    ensures
        ({
            let h = header_bytes(stream_count, directory_rva);
            &&& h.len() == HEADER_SIZE
            &&& read_u32(h, 0) == signature_value()
            &&& read_u32(h, 4) == version_value()
            &&& read_u32(h, 8) == stream_count
            &&& read_u32(h, 12) == directory_rva
            &&& h.subrange(16, 32) == zeros(16)
        }),
{
    let h = header_bytes(stream_count, directory_rva);
    let sig = u32_le(signature_value());
    let ver = u32_le(version_value());
    let count = u32_le(stream_count);
    let dir = u32_le(directory_rva);
    let rest = u32_le(0) + u32_le(0) + u64_le(0);
    lemma_read_u32(signature_value());
    lemma_read_u32(version_value());
    lemma_read_u32(stream_count);
    lemma_read_u32(directory_rva);
    lemma_zero_fields();
    assert(h =~= Seq::<u8>::empty() + sig + (ver + count + dir + rest));
    lemma_read_u32_at(Seq::empty(), signature_value(), ver + count + dir + rest);
    assert(h =~= sig + ver + (count + dir + rest));
    lemma_read_u32_at(sig, version_value(), count + dir + rest);
    assert(h =~= (sig + ver) + count + (dir + rest));
    lemma_read_u32_at(sig + ver, stream_count, dir + rest);
    assert(h =~= (sig + ver + count) + dir + rest);
    lemma_read_u32_at(sig + ver + count, directory_rva, rest);
    assert(h.subrange(16, 32) =~= zeros(16));
}

/// Where the fields of a directory entry lie.
pub proof fn lemma_directory_entry_fields(stream_type: u32, data_size: u32, rva: u32)
    ensures
        ({
            let e = directory_entry_bytes(stream_type, data_size, rva);
            &&& e.len() == DIRECTORY_ENTRY_SIZE
            &&& read_u32(e, 0) == stream_type
            &&& read_u32(e, 4) == data_size
            &&& read_u32(e, 8) == rva
        }),
{
    let e = directory_entry_bytes(stream_type, data_size, rva);
    let t = u32_le(stream_type);
    let s = u32_le(data_size);
    let r = u32_le(rva);
    lemma_read_u32(stream_type);
    lemma_read_u32(data_size);
    lemma_read_u32(rva);
    assert(e =~= Seq::<u8>::empty() + t + (s + r));
    lemma_read_u32_at(Seq::empty(), stream_type, s + r);
    assert(e =~= t + s + r);
    lemma_read_u32_at(t, data_size, r);
    assert(e =~= (t + s) + r + Seq::<u8>::empty());
    lemma_read_u32_at(t + s, rva, Seq::empty());
}

/// Where the fields of a module record lie.
pub proof fn lemma_module_record_fields(
    base_of_image: u64,
    size_of_image: u32,
    checksum: u32,
    time_date_stamp: u32,
    name_rva: u32,
)
    ensures
        ({
            let m = module_record_bytes(
                base_of_image,
                size_of_image,
                checksum,
                time_date_stamp,
                name_rva,
            );
            &&& m.len() == MODULE_RECORD_SIZE
            &&& read_u64(m, 0) == base_of_image
            &&& read_u32(m, 8) == size_of_image
            &&& read_u32(m, 12) == checksum
            &&& read_u32(m, 16) == time_date_stamp
            &&& read_u32(m, 20) == name_rva
            &&& m.subrange(24, 108) == zeros(84)
        }),
{
    let m = module_record_bytes(base_of_image, size_of_image, checksum, time_date_stamp, name_rva);
    let b = u64_le(base_of_image);
    let s = u32_le(size_of_image);
    let c = u32_le(checksum);
    let t = u32_le(time_date_stamp);
    let r = u32_le(name_rva);
    let z = zeros(52) + zeros(16) + zeros(16);
    lemma_read_u64(base_of_image);
    lemma_read_u32(size_of_image);
    lemma_read_u32(checksum);
    lemma_read_u32(time_date_stamp);
    lemma_read_u32(name_rva);
    assert(m =~= Seq::<u8>::empty() + b + (s + c + t + r + z));
    lemma_read_u64_at(Seq::empty(), base_of_image, s + c + t + r + z);
    assert(m =~= b + s + (c + t + r + z));
    lemma_read_u32_at(b, size_of_image, c + t + r + z);
    assert(m =~= (b + s) + c + (t + r + z));
    lemma_read_u32_at(b + s, checksum, t + r + z);
    assert(m =~= (b + s + c) + t + (r + z));
    lemma_read_u32_at(b + s + c, time_date_stamp, r + z);
    assert(m =~= (b + s + c + t) + r + z);
    lemma_read_u32_at(b + s + c + t, name_rva, z);
    assert(m.subrange(24, 108) =~= zeros(84));
}

/// Where the fields of a memory descriptor with a 32-bit location lie.
pub proof fn lemma_memory_descriptor_fields(start: u64, data_size: u32, rva: u32)
    ensures
        ({
            let d = memory_descriptor_bytes(start, data_size, rva);
            &&& d.len() == MEMORY_DESCRIPTOR_SIZE
            &&& read_u64(d, 0) == start
            &&& read_u32(d, 8) == data_size
            &&& read_u32(d, 12) == rva
        }),
{
    let d = memory_descriptor_bytes(start, data_size, rva);
    let a = u64_le(start);
    let s = u32_le(data_size);
    let r = u32_le(rva);
    lemma_read_u64(start);
    lemma_read_u32(data_size);
    lemma_read_u32(rva);
    assert(d =~= Seq::<u8>::empty() + a + (s + r));
    lemma_read_u64_at(Seq::empty(), start, s + r);
    assert(d =~= a + s + r);
    lemma_read_u32_at(a, data_size, r);
    assert(d =~= (a + s) + r + Seq::<u8>::empty());
    lemma_read_u32_at(a + s, rva, Seq::empty());
}

/// Where the fields of a memory descriptor of the 64-bit list lie.
pub proof fn lemma_memory_descriptor64_fields(start: u64, data_size: u64)
    ensures
        ({
            let d = memory_descriptor64_bytes(start, data_size);
            &&& d.len() == MEMORY_DESCRIPTOR_SIZE
            &&& read_u64(d, 0) == start
            &&& read_u64(d, 8) == data_size
        }),
{
    let d = memory_descriptor64_bytes(start, data_size);
    let a = u64_le(start);
    let s = u64_le(data_size);
    lemma_read_u64(start);
    lemma_read_u64(data_size);
    assert(d =~= Seq::<u8>::empty() + a + s);
    lemma_read_u64_at(Seq::empty(), start, s);
    assert(d =~= a + s + Seq::<u8>::empty());
    lemma_read_u64_at(a, data_size, Seq::empty());
}

/// Where the version and the service-pack offset lie in the system-info
/// record.
pub proof fn lemma_system_info_fields(info: SystemInfo, csd_rva: u32)
    ensures
        ({
            let r = system_info_bytes(info, csd_rva);
            &&& r.len() == SYSTEM_INFO_SIZE
            &&& r.subrange(0, 2) == u16_le(info.processor_architecture)
            &&& read_u32(r, 8) == info.major_version
            &&& read_u32(r, 12) == info.minor_version
            &&& read_u32(r, 16) == info.build_number
            &&& read_u32(r, 20) == info.platform_id
            &&& read_u32(r, 24) == csd_rva
            &&& r.subrange(32, 56) == info.cpu.data@
        }),
{
    let r = system_info_bytes(info, csd_rva);
    let head = u16_le(info.processor_architecture) + u16_le(info.processor_level) + u16_le(
        info.processor_revision,
    ) + seq![info.number_of_processors, info.product_type];
    let major = u32_le(info.major_version);
    let minor = u32_le(info.minor_version);
    let build = u32_le(info.build_number);
    let platform = u32_le(info.platform_id);
    let csd = u32_le(csd_rva);
    let tail = u16_le(info.suite_mask) + u16_le(info.reserved2) + info.cpu.data@;
    lemma_read_u16(info.processor_architecture);
    lemma_read_u16(info.processor_level);
    lemma_read_u16(info.processor_revision);
    lemma_read_u16(info.suite_mask);
    lemma_read_u16(info.reserved2);
    lemma_read_u32(info.major_version);
    lemma_read_u32(info.minor_version);
    lemma_read_u32(info.build_number);
    lemma_read_u32(info.platform_id);
    lemma_read_u32(csd_rva);
    assert(r =~= head + major + (minor + build + platform + csd + tail));
    lemma_read_u32_at(head, info.major_version, minor + build + platform + csd + tail);
    assert(r =~= (head + major) + minor + (build + platform + csd + tail));
    lemma_read_u32_at(head + major, info.minor_version, build + platform + csd + tail);
    assert(r =~= (head + major + minor) + build + (platform + csd + tail));
    lemma_read_u32_at(head + major + minor, info.build_number, platform + csd + tail);
    assert(r =~= (head + major + minor + build) + platform + (csd + tail));
    lemma_read_u32_at(head + major + minor + build, info.platform_id, csd + tail);
    assert(r =~= (head + major + minor + build + platform) + csd + tail);
    lemma_read_u32_at(head + major + minor + build + platform, csd_rva, tail);
    assert(r.subrange(0, 2) =~= u16_le(info.processor_architecture));
    assert(r.subrange(32, 56) =~= info.cpu.data@);
}

/// Appends the header.
pub fn put_header(out: &mut Vec<u8>, stream_count: u32, directory_rva: u32)
    ensures
        final(out)@ == old(out)@ + header_bytes(stream_count, directory_rva),
{
    put_u32(out, signature());
    put_u32(out, version());
    put_u32(out, stream_count);
    put_u32(out, directory_rva);
    put_u32(out, 0);
    put_u32(out, 0);
    put_u64(out, 0);
    assert(out@ =~= old(out)@ + header_bytes(stream_count, directory_rva));
}

/// Appends a directory entry.
pub fn put_directory_entry(out: &mut Vec<u8>, stream_type: u32, data_size: u32, rva: u32)
    ensures
        final(out)@ == old(out)@ + directory_entry_bytes(stream_type, data_size, rva),
{
    put_u32(out, stream_type);
    put_u32(out, data_size);
    put_u32(out, rva);
    assert(out@ =~= old(out)@ + directory_entry_bytes(stream_type, data_size, rva));
}

/// Appends a module record.
pub fn put_module_record(
    out: &mut Vec<u8>,
    base_of_image: u64,
    size_of_image: u32,
    checksum: u32,
    time_date_stamp: u32,
    name_rva: u32,
)
    ensures
        final(out)@ == old(out)@ + module_record_bytes(
            base_of_image,
            size_of_image,
            checksum,
            time_date_stamp,
            name_rva,
        ),
{
    put_u64(out, base_of_image);
    put_u32(out, size_of_image);
    put_u32(out, checksum);
    put_u32(out, time_date_stamp);
    put_u32(out, name_rva);
    put_zeros(out, VERSION_INFO_SIZE);
    put_zeros(out, 2 * LOCATION_DESCRIPTOR_SIZE);
    put_zeros(out, 16);
    assert(out@ =~= old(out)@ + module_record_bytes(
        base_of_image,
        size_of_image,
        checksum,
        time_date_stamp,
        name_rva,
    ));
}

/// Appends a memory descriptor with a 32-bit location.
pub fn put_memory_descriptor(out: &mut Vec<u8>, start: u64, data_size: u32, rva: u32)
    ensures
        final(out)@ == old(out)@ + memory_descriptor_bytes(start, data_size, rva),
{
    put_u64(out, start);
    put_u32(out, data_size);
    put_u32(out, rva);
    assert(out@ =~= old(out)@ + memory_descriptor_bytes(start, data_size, rva));
}

/// Appends a memory descriptor of the 64-bit list.
pub fn put_memory_descriptor64(out: &mut Vec<u8>, start: u64, data_size: u64)
    ensures
        final(out)@ == old(out)@ + memory_descriptor64_bytes(start, data_size),
{
    put_u64(out, start);
    put_u64(out, data_size);
    assert(out@ =~= old(out)@ + memory_descriptor64_bytes(start, data_size));
}

/// Appends the system-info record for `info` with `csd_rva` as the offset of
/// the service-pack text. `info` itself is left as it is.
pub fn put_system_info(out: &mut Vec<u8>, info: &SystemInfo, csd_rva: u32)
    ensures
        final(out)@ == old(out)@ + system_info_bytes(*info, csd_rva),
{
    put_u16(out, info.processor_architecture);
    put_u16(out, info.processor_level);
    put_u16(out, info.processor_revision);
    out.push(info.number_of_processors);
    out.push(info.product_type);
    put_u32(out, info.major_version);
    put_u32(out, info.minor_version);
    put_u32(out, info.build_number);
    put_u32(out, info.platform_id);
    put_u32(out, csd_rva);
    put_u16(out, info.suite_mask);
    put_u16(out, info.reserved2);
    put_bytes(out, info.cpu.data.as_slice());
    assert(out@ =~= old(out)@ + system_info_bytes(*info, csd_rva));
}

} // verus!
