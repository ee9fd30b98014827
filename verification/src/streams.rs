//! The stream kinds of a dump. Each kind says, for the absolute offset at
//! which its payload will begin, which bytes that payload is; every offset
//! that the payload embeds is an offset from the start of the file.

use crate::codec::{
    lemma_low32_exact, lemma_low64_exact, lemma_read_u32, lemma_read_u64, low32, low64, put_bytes,
    put_u32, put_u64, read_u32, read_u64, truncate32, truncate64, u32_le, u64_le,
};
use crate::format::{
    lemma_memory_descriptor64_fields, lemma_memory_descriptor_fields, lemma_module_record_fields,
    lemma_system_info_fields, memory_descriptor64_bytes, memory_descriptor_bytes,
    module_record_bytes, put_memory_descriptor,
    put_memory_descriptor64, put_module_record, put_system_info, system_info_bytes, CpuInformation,
    SystemInfo, MEMORY64_LIST_STREAM, MEMORY_DESCRIPTOR_SIZE, MEMORY_LIST_STREAM,
    MODULE_LIST_STREAM, MODULE_RECORD_SIZE, SYSTEM_INFO_SIZE, SYSTEM_INFO_STREAM,
};
use crate::utf16::{lemma_read_text_within, lemma_text_blob_len, put_text, read_text, text_blob};
use crate::window::{
    lemma_lies_in_itself, lemma_lies_in_left, lemma_lies_in_right, lemma_read_u32_within,
    lemma_read_u64_within, lies_at,
};
use vstd::prelude::*;

verus! {

/// A section of a dump: a type tag and a payload that can be written at any
/// absolute offset.
pub trait MinidumpStream {
    /// The payload of this stream when it begins at absolute offset `pos`.
    spec fn payload(&self, pos: int) -> Seq<u8>;

    /// The tag under which the directory lists this stream.
    spec fn tag(&self) -> u32;

    /// Appends to `writer` the payload for a stream that begins at absolute
    /// offset `pos` of the file.
    fn write(&self, pos: usize, writer: &mut Vec<u8>)
        ensures
            final(writer)@ == old(writer)@ + self.payload(pos as int),
    ;

    /// The tag under which the directory lists this stream.
    fn stream_type(&self) -> (tag: u32)
        ensures
            tag == self.tag(),
    ;
}

/// A module of the dumped process.
pub struct MinidumpModule {
    pub base_of_image: u64,
    pub size_of_image: u32,
    pub checksum: u32,
    pub time_date_stamp: u32,
    pub name: String,
}

/// The modules of the dumped process, in the order in which they were added.
pub struct ModuleListStream {
    modules: Vec<MinidumpModule>,
}

/// The stored names of the first `k` modules, one after the other.
pub open spec fn module_names(modules: Seq<MinidumpModule>, k: int) -> Seq<u8>
    decreases k,
{
    if k <= 0 {
        Seq::empty()
    } else {
        module_names(modules, k - 1) + text_blob(modules[k - 1].name@)
    }
}

/// The absolute offset of the stored name of module `k`, for a list that
/// begins at `pos`: past the count, all records and the names before it.
pub open spec fn module_name_offset(modules: Seq<MinidumpModule>, pos: int, k: int) -> int {
    pos + 4 + MODULE_RECORD_SIZE * modules.len() + module_names(modules, k).len()
}

/// The record of module `k`, for a list that begins at `pos`.
pub open spec fn module_record(modules: Seq<MinidumpModule>, pos: int, k: int) -> Seq<u8> {
    module_record_bytes(
        modules[k].base_of_image,
        modules[k].size_of_image,
        modules[k].checksum,
        modules[k].time_date_stamp,
        low32(module_name_offset(modules, pos, k)),
    )
}

/// The records of the first `k` modules, for a list that begins at `pos`.
pub open spec fn module_records(modules: Seq<MinidumpModule>, pos: int, k: int) -> Seq<u8>
    decreases k,
{
    if k <= 0 {
        Seq::empty()
    } else {
        module_records(modules, pos, k - 1) + module_record(modules, pos, k - 1)
    }
}

/// The payload of a module list that begins at `pos`: the count in 32 bits,
/// one record per module, then the stored names in the same order.
pub open spec fn module_list_payload(modules: Seq<MinidumpModule>, pos: int) -> Seq<u8> {
    u32_le(low32(modules.len() as int)) + module_records(modules, pos, modules.len() as int)
        + module_names(modules, modules.len() as int)
}

impl View for ModuleListStream {
    type V = Seq<MinidumpModule>;

    closed spec fn view(&self) -> Seq<MinidumpModule> {
        self.modules@
    }
}

impl Default for ModuleListStream {
    fn default() -> (stream: Self)
        ensures
            stream@ == Seq::<MinidumpModule>::empty(),
    {
        ModuleListStream { modules: Vec::new() }
    }
}

impl ModuleListStream {
    /// Appends `module` after the modules already held.
    pub fn add_module(&mut self, module: MinidumpModule)
        ensures
            final(self)@ == old(self)@.push(module),
    {
        self.modules.push(module);
    }
}

impl MinidumpStream for ModuleListStream {
    open spec fn payload(&self, pos: int) -> Seq<u8> {
        module_list_payload(self@, pos)
    }

    open spec fn tag(&self) -> u32 {
        MODULE_LIST_STREAM
    }

    fn write(&self, pos: usize, writer: &mut Vec<u8>) {
        let n: usize = self.modules.len();
        put_u32(writer, truncate32(n as u128));
        assert(MODULE_RECORD_SIZE * n <= 108 * usize::MAX);
        let end: u128 = pos as u128 + 4 + (MODULE_RECORD_SIZE as u128) * (n as u128);
        let mut names: Vec<u8> = Vec::new();
        let mut i: usize = 0;
        while i < n
            invariant
                i <= n,
                n == self.modules.len(),
                end == pos + 4 + MODULE_RECORD_SIZE * n,
                names@ == module_names(self@, i as int),
                writer@ == old(writer)@ + u32_le(low32(n as int)) + module_records(
                    self@,
                    pos as int,
                    i as int,
                ),
            decreases n - i,
        {
            let module = &self.modules[i];
            let rva: u32 = truncate32(end + names.len() as u128);
            put_module_record(
                writer,
                module.base_of_image,
                module.size_of_image,
                module.checksum,
                module.time_date_stamp,
                rva,
            );
            put_text(&mut names, module.name.as_str());
            i += 1;
            assert(writer@ =~= old(writer)@ + u32_le(low32(n as int)) + module_records(
                self@,
                pos as int,
                i as int,
            ));
        }
        put_bytes(writer, names.as_slice());
        assert(writer@ =~= old(writer)@ + self.payload(pos as int));
    }

    fn stream_type(&self) -> (tag: u32) {
        MODULE_LIST_STREAM
    }
}

/// A buffer of captured memory that a descriptor can borrow or own.
pub trait MemoryBuffer {
    /// The bytes held.
    spec fn bytes(&self) -> Seq<u8>;

    /// The bytes held, for reading.
    fn as_bytes(&self) -> (b: &[u8])
        ensures
            b@ == self.bytes(),
    ;
}

impl MemoryBuffer for Vec<u8> {
    open spec fn bytes(&self) -> Seq<u8> {
        self@
    }

    fn as_bytes(&self) -> (b: &[u8]) {
        self.as_slice()
    }
}

impl<'a> MemoryBuffer for &'a [u8] {
    open spec fn bytes(&self) -> Seq<u8> {
        (*self)@
    }

    fn as_bytes(&self) -> (b: &[u8]) {
        self
    }
}

/// A range of captured memory: where it started in the process and what it
/// held.
pub struct MemoryDescriptor<T> {
    pub start_of_memory: u64,
    pub buf: T,
}

/// Memory ranges located by 32-bit descriptors.
pub struct MemoryListStream<T> {
    pub list: Vec<MemoryDescriptor<T>>,
}

/// Memory ranges located by one 64-bit base offset and their sizes.
pub struct Memory64ListStream<T> {
    pub list: Vec<MemoryDescriptor<T>>,
}

/// The buffers of the first `k` ranges, back to back.
pub open spec fn memory_data<T: MemoryBuffer>(list: Seq<MemoryDescriptor<T>>, k: int) -> Seq<u8>
    decreases k,
{
    if k <= 0 {
        Seq::empty()
    } else {
        memory_data(list, k - 1) + list[k - 1].buf.bytes()
    }
}

/// The absolute offset of the buffer of range `k`, for a list that begins at
/// `pos`: past the count, all descriptors and the buffers before it.
pub open spec fn memory_offset<T: MemoryBuffer>(
    list: Seq<MemoryDescriptor<T>>,
    pos: int,
    k: int,
) -> int {
    pos + 4 + MEMORY_DESCRIPTOR_SIZE * list.len() + memory_data(list, k).len()
}

/// The descriptor of range `k`, for a list that begins at `pos`.
pub open spec fn memory_record<T: MemoryBuffer>(
    list: Seq<MemoryDescriptor<T>>,
    pos: int,
    k: int,
) -> Seq<u8> {
    memory_descriptor_bytes(
        list[k].start_of_memory,
        low32(list[k].buf.bytes().len() as int),
        low32(memory_offset(list, pos, k)),
    )
}

/// The descriptors of the first `k` ranges, for a list that begins at `pos`.
pub open spec fn memory_records<T: MemoryBuffer>(
    list: Seq<MemoryDescriptor<T>>,
    pos: int,
    k: int,
) -> Seq<u8>
    decreases k,
{
    if k <= 0 {
        Seq::empty()
    } else {
        memory_records(list, pos, k - 1) + memory_record(list, pos, k - 1)
    }
}

/// The payload of a memory list that begins at `pos`: the count in 32 bits,
/// one descriptor per range, then the buffers back to back.
pub open spec fn memory_list_payload<T: MemoryBuffer>(
    list: Seq<MemoryDescriptor<T>>,
    pos: int,
) -> Seq<u8> {
    u32_le(low32(list.len() as int)) + memory_records(list, pos, list.len() as int) + memory_data(
        list,
        list.len() as int,
    )
}

/// The absolute offset of the first buffer byte of a 64-bit memory list that
/// begins at `pos`: past the count, the base offset itself and all
/// descriptors.
pub open spec fn memory64_base<T: MemoryBuffer>(list: Seq<MemoryDescriptor<T>>, pos: int) -> int {
    pos + 16 + MEMORY_DESCRIPTOR_SIZE * list.len()
}

/// The descriptor of range `k` of a 64-bit memory list.
pub open spec fn memory64_record<T: MemoryBuffer>(list: Seq<MemoryDescriptor<T>>, k: int) -> Seq<
    u8,
> {
    memory_descriptor64_bytes(list[k].start_of_memory, low64(list[k].buf.bytes().len() as int))
}

/// The descriptors of the first `k` ranges of a 64-bit memory list.
pub open spec fn memory64_records<T: MemoryBuffer>(list: Seq<MemoryDescriptor<T>>, k: int) -> Seq<
    u8,
>
    decreases k,
{
    if k <= 0 {
        Seq::empty()
    } else {
        memory64_records(list, k - 1) + memory64_record(list, k - 1)
    }
}

/// The payload of a 64-bit memory list that begins at `pos`: the count in 64
/// bits, the base offset in 64 bits, one descriptor per range, then the
/// buffers back to back.
pub open spec fn memory64_list_payload<T: MemoryBuffer>(
    list: Seq<MemoryDescriptor<T>>,
    pos: int,
) -> Seq<u8> {
    u64_le(low64(list.len() as int)) + u64_le(low64(memory64_base(list, pos))) + memory64_records(
        list,
        list.len() as int,
    ) + memory_data(list, list.len() as int)
}

impl<T> Default for MemoryListStream<T> {
    fn default() -> (stream: Self)
        ensures
            stream.list@ == Seq::<MemoryDescriptor<T>>::empty(),
    {
        MemoryListStream { list: Vec::new() }
    }
}

impl<T> Default for Memory64ListStream<T> {
    fn default() -> (stream: Self)
        ensures
            stream.list@ == Seq::<MemoryDescriptor<T>>::empty(),
    {
        Memory64ListStream { list: Vec::new() }
    }
}

impl<T: MemoryBuffer> MinidumpStream for MemoryListStream<T> {
    open spec fn payload(&self, pos: int) -> Seq<u8> {
        memory_list_payload(self.list@, pos)
    }

    open spec fn tag(&self) -> u32 {
        MEMORY_LIST_STREAM
    }

    fn write(&self, pos: usize, writer: &mut Vec<u8>) {
        let n: usize = self.list.len();
        put_u32(writer, truncate32(n as u128));
        let end: u128 = pos as u128 + 4 + (MEMORY_DESCRIPTOR_SIZE as u128) * (n as u128);
        let mut data: Vec<u8> = Vec::new();
        let mut i: usize = 0;
        while i < n
            invariant
                i <= n,
                n == self.list.len(),
                end == pos + 4 + MEMORY_DESCRIPTOR_SIZE * n,
                data@ == memory_data(self.list@, i as int),
                writer@ == old(writer)@ + u32_le(low32(n as int)) + memory_records(
                    self.list@,
                    pos as int,
                    i as int,
                ),
            decreases n - i,
        {
            let range = &self.list[i];
            let buf: &[u8] = range.buf.as_bytes();
            let rva: u32 = truncate32(end + data.len() as u128);
            put_memory_descriptor(
                writer,
                range.start_of_memory,
                truncate32(buf.len() as u128),
                rva,
            );
            put_bytes(&mut data, buf);
            i += 1;
            assert(writer@ =~= old(writer)@ + u32_le(low32(n as int)) + memory_records(
                self.list@,
                pos as int,
                i as int,
            ));
        }
        put_bytes(writer, data.as_slice());
        assert(writer@ =~= old(writer)@ + self.payload(pos as int));
    }

    fn stream_type(&self) -> (tag: u32) {
        MEMORY_LIST_STREAM
    }
}

impl<T: MemoryBuffer> MinidumpStream for Memory64ListStream<T> {
    open spec fn payload(&self, pos: int) -> Seq<u8> {
        memory64_list_payload(self.list@, pos)
    }

    open spec fn tag(&self) -> u32 {
        MEMORY64_LIST_STREAM
    }

    fn write(&self, pos: usize, writer: &mut Vec<u8>) {
        let n: usize = self.list.len();
        put_u64(writer, truncate64(n as u128));
        let end: u128 = pos as u128 + 16 + (MEMORY_DESCRIPTOR_SIZE as u128) * (n as u128);
        put_u64(writer, truncate64(end));
        let mut data: Vec<u8> = Vec::new();
        let mut i: usize = 0;
        while i < n
            invariant
                i <= n,
                n == self.list.len(),
                data@ == memory_data(self.list@, i as int),
                writer@ == old(writer)@ + u64_le(low64(n as int)) + u64_le(
                    low64(memory64_base(self.list@, pos as int)),
                ) + memory64_records(self.list@, i as int),
            decreases n - i,
        {
            let range = &self.list[i];
            let buf: &[u8] = range.buf.as_bytes();
            put_memory_descriptor64(
                writer,
                range.start_of_memory,
                truncate64(buf.len() as u128),
            );
            put_bytes(&mut data, buf);
            i += 1;
            assert(writer@ =~= old(writer)@ + u64_le(low64(n as int)) + u64_le(
                low64(memory64_base(self.list@, pos as int)),
            ) + memory64_records(self.list@, i as int));
        }
        put_bytes(writer, data.as_slice());
        assert(writer@ =~= old(writer)@ + self.payload(pos as int));
    }

    fn stream_type(&self) -> (tag: u32) {
        MEMORY64_LIST_STREAM
    }
}

/// The description of the system the dump was taken on, and the name of its
/// service pack.
pub struct SystemInfoStream {
    pub system_info: SystemInfo,
    pub service_pack_str: String,
}

/// Whether every field of `info` is zero.
pub open spec fn is_blank(info: SystemInfo) -> bool {
    &&& blank_but_arch_and_version(info)
    &&& info.processor_architecture == 0
    &&& info.major_version == 0
    &&& info.minor_version == 0
    &&& info.build_number == 0
}

/// Whether every field of `info` is zero, but for the architecture and the
/// three parts of the version.
pub open spec fn blank_but_arch_and_version(info: SystemInfo) -> bool {
    &&& info.processor_level == 0
    &&& info.processor_revision == 0
    &&& info.number_of_processors == 0
    &&& info.product_type == 0
    &&& info.platform_id == 0
    &&& info.csd_version_rva == 0
    &&& info.suite_mask == 0
    &&& info.reserved2 == 0
    &&& forall|i: int| 0 <= i < 24 ==> info.cpu.data@[i] == 0
}

impl Default for SystemInfoStream {
    fn default() -> (stream: Self)
        ensures
            is_blank(stream.system_info),
            stream.service_pack_str@ == Seq::<char>::empty(),
    {
        SystemInfoStream::with_arch_and_version(0, 0, 0, 0)
    }
}

impl SystemInfoStream {
    /// A stream for architecture `arch`, of which the record keeps the low 16
    /// bits, and the given version; every other field is zero and the
    /// service-pack name is empty.
    pub fn with_arch_and_version(
        arch: u32,
        major_version: u32,
        minor_version: u32,
        build_number: u32,
    ) -> (stream: Self)
        ensures
            stream.system_info.processor_architecture == arch % 0x1_0000,
            stream.system_info.major_version == major_version,
            stream.system_info.minor_version == minor_version,
            stream.system_info.build_number == build_number,
            blank_but_arch_and_version(stream.system_info),
            stream.service_pack_str@ == Seq::<char>::empty(),
    {
        SystemInfoStream {
            system_info: SystemInfo {
                processor_architecture: (arch % 0x1_0000) as u16,
                processor_level: 0,
                processor_revision: 0,
                number_of_processors: 0,
                product_type: 0,
                major_version,
                minor_version,
                build_number,
                platform_id: 0,
                csd_version_rva: 0,
                suite_mask: 0,
                reserved2: 0,
                cpu: CpuInformation { data: [0u8; 24] },
            },
            service_pack_str: String::new(),
        }
    }
}

impl MinidumpStream for SystemInfoStream {
    open spec fn payload(&self, pos: int) -> Seq<u8> {
        system_info_bytes(self.system_info, low32(pos + SYSTEM_INFO_SIZE)) + text_blob(
            self.service_pack_str@,
        )
    }

    open spec fn tag(&self) -> u32 {
        SYSTEM_INFO_STREAM
    }

    fn write(&self, pos: usize, writer: &mut Vec<u8>) {
        let end: u128 = pos as u128 + SYSTEM_INFO_SIZE as u128;
        put_system_info(writer, &self.system_info, truncate32(end));
        put_text(writer, self.service_pack_str.as_str());
        assert(writer@ =~= old(writer)@ + self.payload(pos as int));
    }

    fn stream_type(&self) -> (tag: u32) {
        SYSTEM_INFO_STREAM
    }
}

/// The records of the first `k` modules take `k` times the size of one.
pub proof fn lemma_module_records_len(modules: Seq<MinidumpModule>, pos: int, k: int)
    requires
        0 <= k <= modules.len(),
    ensures
        module_records(modules, pos, k).len() == MODULE_RECORD_SIZE * k,
    decreases k,
{
    if k > 0 {
        lemma_module_records_len(modules, pos, k - 1);
        lemma_module_record_fields(
            modules[k - 1].base_of_image,
            modules[k - 1].size_of_image,
            modules[k - 1].checksum,
            modules[k - 1].time_date_stamp,
            low32(module_name_offset(modules, pos, k - 1)),
        );
    }
}

/// The record of module `k` lies at its place among the first `n` records.
pub proof fn lemma_module_record_at(modules: Seq<MinidumpModule>, pos: int, n: int, k: int)
    requires
        0 <= k < n <= modules.len(),
    ensures
        lies_at(
            module_records(modules, pos, n),
            MODULE_RECORD_SIZE * k,
            module_record(modules, pos, k),
        ),
    decreases n,
{
    let earlier = module_records(modules, pos, n - 1);
    let last = module_record(modules, pos, n - 1);
    if k + 1 < n {
        lemma_module_record_at(modules, pos, n - 1, k);
        lemma_lies_in_left(earlier, last, MODULE_RECORD_SIZE * k, module_record(modules, pos, k));
    } else {
        lemma_module_records_len(modules, pos, n - 1);
        lemma_lies_in_itself(last);
        lemma_lies_in_right(earlier, last, 0, last);
    }
}

/// The stored name of module `k` lies among the first `n` names right after
/// the names before it.
pub proof fn lemma_module_name_at(modules: Seq<MinidumpModule>, n: int, k: int)
    requires
        0 <= k < n,
    ensures
        lies_at(
            module_names(modules, n),
            module_names(modules, k).len() as int,
            text_blob(modules[k].name@),
        ),
    decreases n,
{
    let earlier = module_names(modules, n - 1);
    let last = text_blob(modules[n - 1].name@);
    if k + 1 < n {
        lemma_module_name_at(modules, n - 1, k);
        lemma_lies_in_left(
            earlier,
            last,
            module_names(modules, k).len() as int,
            text_blob(modules[k].name@),
        );
    } else {
        lemma_lies_in_itself(last);
        lemma_lies_in_right(earlier, last, 0, last);
    }
}

impl ModuleListStream {
    /// Where the count, the record of module `k` and the stored name of
    /// module `k` lie in the payload.
    pub proof fn lemma_parts(&self, pos: int, k: int)
        requires
            0 <= k < self@.len(),
        ensures
            lies_at(self.payload(pos), 0, u32_le(low32(self@.len() as int))),
            lies_at(
                self.payload(pos),
                4 + MODULE_RECORD_SIZE * k,
                module_record(self@, pos, k),
            ),
            lies_at(
                self.payload(pos),
                module_name_offset(self@, pos, k) - pos,
                text_blob(self@[k].name@),
            ),
    {
        let modules = self@;
        let n = modules.len() as int;
        let count = u32_le(low32(n));
        let records = module_records(modules, pos, n);
        let names = module_names(modules, n);
        let record = module_record(modules, pos, k);
        let blob = text_blob(modules[k].name@);
        lemma_module_records_len(modules, pos, n);
        lemma_read_u32(low32(n));
        lemma_lies_in_itself(count);
        lemma_lies_in_left(count, records, 0, count);
        lemma_lies_in_left(count + records, names, 0, count);
        lemma_module_record_at(modules, pos, n, k);
        lemma_lies_in_right(count, records, MODULE_RECORD_SIZE * k, record);
        lemma_lies_in_left(count + records, names, 4 + MODULE_RECORD_SIZE * k, record);
        lemma_module_name_at(modules, n, k);
        lemma_lies_in_right(count + records, names, module_names(modules, k).len() as int, blob);
    }

    /// In a module list that ends within the first 2^32 bytes of the file,
    /// the count is the number of modules; the record of every module
    /// carries the module's fields; and its name offset is the absolute
    /// offset of a stored text, inside this payload and past all records,
    /// that reads back as the module's name.
    pub proof fn module_names_resolve(&self, pos: int, k: int)
        requires
            0 <= k < self@.len(),
            0 <= pos,
            pos + self.payload(pos).len() <= 0x1_0000_0000,
        ensures
            ({
                let payload = self.payload(pos);
                let at = 4 + MODULE_RECORD_SIZE * k;
                let rva = read_u32(payload, at + 20);
                &&& read_u32(payload, 0) == self@.len()
                &&& read_u64(payload, at) == self@[k].base_of_image
                &&& read_u32(payload, at + 8) == self@[k].size_of_image
                &&& read_u32(payload, at + 12) == self@[k].checksum
                &&& read_u32(payload, at + 16) == self@[k].time_date_stamp
                &&& rva == module_name_offset(self@, pos, k)
                &&& pos + 4 + MODULE_RECORD_SIZE * self@.len() <= rva < pos + payload.len()
                &&& lies_at(payload, rva - pos, text_blob(self@[k].name@))
                &&& read_text(payload, rva - pos) == Some(self@[k].name@)
            }),
    {
        let modules = self@;
        let n = modules.len() as int;
        let payload = self.payload(pos);
        let at = 4 + MODULE_RECORD_SIZE * k;
        let count = u32_le(low32(n));
        let record = module_record(modules, pos, k);
        let name = modules[k].name@;
        let offset = module_name_offset(modules, pos, k);
        self.lemma_parts(pos, k);
        lemma_text_blob_len(name);
        lemma_low32_exact(n);
        lemma_low32_exact(offset);
        lemma_read_u32(low32(n));
        lemma_read_u32_within(payload, 0, count, 0);
        lemma_module_record_fields(
            modules[k].base_of_image,
            modules[k].size_of_image,
            modules[k].checksum,
            modules[k].time_date_stamp,
            low32(offset),
        );
        lemma_read_u64_within(payload, at, record, 0);
        lemma_read_u32_within(payload, at, record, 8);
        lemma_read_u32_within(payload, at, record, 12);
        lemma_read_u32_within(payload, at, record, 16);
        lemma_read_u32_within(payload, at, record, 20);
        lemma_read_text_within(payload, offset - pos, name);
    }
}

/// The sizes of the buffers of the first `k` ranges, added up.
pub open spec fn sizes_before<T: MemoryBuffer>(list: Seq<MemoryDescriptor<T>>, k: int) -> int
    decreases k,
{
    if k <= 0 {
        0
    } else {
        sizes_before(list, k - 1) + list[k - 1].buf.bytes().len()
    }
}

/// The buffers of the first `k` ranges, back to back, are as long as their
/// sizes added up.
pub proof fn lemma_memory_data_len<T: MemoryBuffer>(list: Seq<MemoryDescriptor<T>>, k: int)
    requires
        0 <= k,
    ensures
        memory_data(list, k).len() == sizes_before(list, k),
    decreases k,
{
    if k > 0 {
        lemma_memory_data_len(list, k - 1);
    }
}

/// The buffer of range `k` lies among the first `n` buffers right after the
/// buffers before it.
pub proof fn lemma_memory_buffer_at<T: MemoryBuffer>(
    list: Seq<MemoryDescriptor<T>>,
    n: int,
    k: int,
)
    requires
        0 <= k < n,
    ensures
        lies_at(memory_data(list, n), memory_data(list, k).len() as int, list[k].buf.bytes()),
    decreases n,
{
    let earlier = memory_data(list, n - 1);
    let last = list[n - 1].buf.bytes();
    if k + 1 < n {
        lemma_memory_buffer_at(list, n - 1, k);
        lemma_lies_in_left(earlier, last, memory_data(list, k).len() as int, list[k].buf.bytes());
    } else {
        lemma_lies_in_itself(last);
        lemma_lies_in_right(earlier, last, 0, last);
    }
}

/// The descriptors of the first `k` ranges take `k` times the size of one,
/// in either list form.
pub proof fn lemma_memory_records_len<T: MemoryBuffer>(
    list: Seq<MemoryDescriptor<T>>,
    pos: int,
    k: int,
)
    requires
        0 <= k <= list.len(),
    ensures
        memory_records(list, pos, k).len() == MEMORY_DESCRIPTOR_SIZE * k,
        memory64_records(list, k).len() == MEMORY_DESCRIPTOR_SIZE * k,
    decreases k,
{
    if k > 0 {
        lemma_memory_records_len(list, pos, k - 1);
        lemma_memory_descriptor_fields(
            list[k - 1].start_of_memory,
            low32(list[k - 1].buf.bytes().len() as int),
            low32(memory_offset(list, pos, k - 1)),
        );
        lemma_memory_descriptor64_fields(
            list[k - 1].start_of_memory,
            low64(list[k - 1].buf.bytes().len() as int),
        );
    }
}

/// The descriptor of range `k` lies at its place among the first `n`
/// descriptors.
pub proof fn lemma_memory_record_at<T: MemoryBuffer>(
    list: Seq<MemoryDescriptor<T>>,
    pos: int,
    n: int,
    k: int,
)
    requires
        0 <= k < n <= list.len(),
    ensures
        lies_at(
            memory_records(list, pos, n),
            MEMORY_DESCRIPTOR_SIZE * k,
            memory_record(list, pos, k),
        ),
    decreases n,
{
    let earlier = memory_records(list, pos, n - 1);
    let last = memory_record(list, pos, n - 1);
    if k + 1 < n {
        lemma_memory_record_at(list, pos, n - 1, k);
        lemma_lies_in_left(earlier, last, MEMORY_DESCRIPTOR_SIZE * k, memory_record(list, pos, k));
    } else {
        lemma_memory_records_len(list, pos, n - 1);
        lemma_lies_in_itself(last);
        lemma_lies_in_right(earlier, last, 0, last);
    }
}

/// The descriptor of range `k` lies at its place among the first `n`
/// descriptors of a 64-bit list.
pub proof fn lemma_memory64_record_at<T: MemoryBuffer>(
    list: Seq<MemoryDescriptor<T>>,
    n: int,
    k: int,
)
    requires
        0 <= k < n <= list.len(),
    ensures
        lies_at(memory64_records(list, n), MEMORY_DESCRIPTOR_SIZE * k, memory64_record(list, k)),
    decreases n,
{
    let earlier = memory64_records(list, n - 1);
    let last = memory64_record(list, n - 1);
    if k + 1 < n {
        lemma_memory64_record_at(list, n - 1, k);
        lemma_lies_in_left(earlier, last, MEMORY_DESCRIPTOR_SIZE * k, memory64_record(list, k));
    } else {
        lemma_memory_records_len(list, 0, n - 1);
        lemma_lies_in_itself(last);
        lemma_lies_in_right(earlier, last, 0, last);
    }
}

impl<T: MemoryBuffer> MemoryListStream<T> {
    /// Where the count, the descriptor of range `k` and the buffer of range
    /// `k` lie in the payload.
    pub proof fn lemma_parts(&self, pos: int, k: int)
        requires
            0 <= k < self.list@.len(),
        ensures
            lies_at(self.payload(pos), 0, u32_le(low32(self.list@.len() as int))),
            lies_at(
                self.payload(pos),
                4 + MEMORY_DESCRIPTOR_SIZE * k,
                memory_record(self.list@, pos, k),
            ),
            lies_at(
                self.payload(pos),
                memory_offset(self.list@, pos, k) - pos,
                self.list@[k].buf.bytes(),
            ),
    {
        let list = self.list@;
        let n = list.len() as int;
        let count = u32_le(low32(n));
        let records = memory_records(list, pos, n);
        let data = memory_data(list, n);
        let record = memory_record(list, pos, k);
        let buf = list[k].buf.bytes();
        lemma_memory_records_len(list, pos, n);
        lemma_read_u32(low32(n));
        lemma_lies_in_itself(count);
        lemma_lies_in_left(count, records, 0, count);
        lemma_lies_in_left(count + records, data, 0, count);
        lemma_memory_record_at(list, pos, n, k);
        lemma_lies_in_right(count, records, MEMORY_DESCRIPTOR_SIZE * k, record);
        lemma_lies_in_left(count + records, data, 4 + MEMORY_DESCRIPTOR_SIZE * k, record);
        lemma_memory_buffer_at(list, n, k);
        lemma_lies_in_right(count + records, data, memory_data(list, k).len() as int, buf);
    }

    /// What the count and the descriptor of range `k` read as.
    proof fn lemma_reads(&self, pos: int, k: int)
        requires
            0 <= k < self.list@.len(),
        ensures
            ({
                let list = self.list@;
                let payload = self.payload(pos);
                let at = 4 + MEMORY_DESCRIPTOR_SIZE * k;
                &&& read_u32(payload, 0) == low32(list.len() as int)
                &&& read_u64(payload, at) == list[k].start_of_memory
                &&& read_u32(payload, at + 8) == low32(list[k].buf.bytes().len() as int)
                &&& read_u32(payload, at + 12) == low32(memory_offset(list, pos, k))
            }),
    {
        let list = self.list@;
        let n = list.len() as int;
        let payload = self.payload(pos);
        let at = 4 + MEMORY_DESCRIPTOR_SIZE * k;
        let count = u32_le(low32(n));
        let record = memory_record(list, pos, k);
        self.lemma_parts(pos, k);
        lemma_read_u32(low32(n));
        lemma_read_u32_within(payload, 0, count, 0);
        lemma_memory_descriptor_fields(
            list[k].start_of_memory,
            low32(list[k].buf.bytes().len() as int),
            low32(memory_offset(list, pos, k)),
        );
        lemma_read_u64_within(payload, at, record, 0);
        lemma_read_u32_within(payload, at, record, 8);
        lemma_read_u32_within(payload, at, record, 12);
    }

    /// In a memory list that ends before offset 2^32 of the file, the count
    /// is the number of ranges; the descriptor of every range carries its
    /// start address, the size of its buffer and the absolute offset of its
    /// buffer; the bytes at that offset are the buffer; and the buffers lie
    /// back to back: the first right after the descriptors, each later one
    /// where the one before it ends.
    pub proof fn descriptors_locate_buffers(&self, pos: int, k: int)
        requires
            0 <= k < self.list@.len(),
            0 <= pos,
            pos + self.payload(pos).len() < 0x1_0000_0000,
        ensures
            ({
                let payload = self.payload(pos);
                let at = 4 + MEMORY_DESCRIPTOR_SIZE * k;
                let size = read_u32(payload, at + 8);
                let rva = read_u32(payload, at + 12);
                &&& read_u32(payload, 0) == self.list@.len()
                &&& read_u64(payload, at) == self.list@[k].start_of_memory
                &&& size == self.list@[k].buf.bytes().len()
                &&& rva == pos + 4 + MEMORY_DESCRIPTOR_SIZE * self.list@.len() + sizes_before(
                    self.list@,
                    k,
                )
                &&& lies_at(payload, rva - pos, self.list@[k].buf.bytes())
                &&& k + 1 < self.list@.len() ==> read_u32(
                    payload,
                    at + MEMORY_DESCRIPTOR_SIZE + 12,
                ) == rva + size
            }),
    {
        let list = self.list@;
        let n = list.len() as int;
        self.lemma_parts(pos, k);
        self.lemma_reads(pos, k);
        lemma_memory_data_len(list, k);
        lemma_low32_exact(n);
        lemma_low32_exact(list[k].buf.bytes().len() as int);
        lemma_low32_exact(memory_offset(list, pos, k));
        if k + 1 < n {
            self.lemma_parts(pos, k + 1);
            self.lemma_reads(pos, k + 1);
            lemma_low32_exact(memory_offset(list, pos, k + 1));
        }
    }
}

impl<T: MemoryBuffer> Memory64ListStream<T> {
    /// Where the count, the base offset, the descriptor of range `k` and the
    /// buffer of range `k` lie in the payload.
    pub proof fn lemma_parts(&self, pos: int, k: int)
        requires
            0 <= k < self.list@.len(),
        ensures
            lies_at(self.payload(pos), 0, u64_le(low64(self.list@.len() as int))),
            lies_at(self.payload(pos), 8, u64_le(low64(memory64_base(self.list@, pos)))),
            lies_at(
                self.payload(pos),
                16 + MEMORY_DESCRIPTOR_SIZE * k,
                memory64_record(self.list@, k),
            ),
            lies_at(
                self.payload(pos),
                16 + MEMORY_DESCRIPTOR_SIZE * self.list@.len() + memory_data(self.list@, k).len(),
                self.list@[k].buf.bytes(),
            ),
    {
        let list = self.list@;
        let n = list.len() as int;
        let count = u64_le(low64(n));
        let base = u64_le(low64(memory64_base(list, pos)));
        let records = memory64_records(list, n);
        let data = memory_data(list, n);
        let record = memory64_record(list, k);
        let buf = list[k].buf.bytes();
        lemma_memory_records_len(list, pos, n);
        lemma_read_u64(low64(n));
        lemma_read_u64(low64(memory64_base(list, pos)));
        lemma_lies_in_itself(count);
        lemma_lies_in_left(count, base, 0, count);
        lemma_lies_in_left(count + base, records, 0, count);
        lemma_lies_in_left(count + base + records, data, 0, count);
        lemma_lies_in_itself(base);
        lemma_lies_in_right(count, base, 0, base);
        lemma_lies_in_left(count + base, records, 8, base);
        lemma_lies_in_left(count + base + records, data, 8, base);
        lemma_memory64_record_at(list, n, k);
        lemma_lies_in_right(count + base, records, MEMORY_DESCRIPTOR_SIZE * k, record);
        lemma_lies_in_left(count + base + records, data, 16 + MEMORY_DESCRIPTOR_SIZE * k, record);
        lemma_memory_buffer_at(list, n, k);
        lemma_lies_in_right(count + base + records, data, memory_data(list, k).len() as int, buf);
    }

    /// In a 64-bit memory list that ends before offset 2^64 of the file, the
    /// count is the number of ranges; the base offset is the absolute offset
    /// of the first buffer byte, right after the descriptors; the descriptor
    /// of every range carries its start address and the size of its buffer;
    /// and the buffer of range `k` lies at the base offset plus the sizes of
    /// the buffers before it.
    pub proof fn buffers_follow_base(&self, pos: int, k: int)
        requires
            0 <= k < self.list@.len(),
            0 <= pos,
            pos + self.payload(pos).len() < 0x1_0000_0000_0000_0000,
        ensures
            ({
                let payload = self.payload(pos);
                let at = 16 + MEMORY_DESCRIPTOR_SIZE * k;
                let base = read_u64(payload, 8);
                let size = read_u64(payload, at + 8);
                &&& read_u64(payload, 0) == self.list@.len()
                &&& base == pos + 16 + MEMORY_DESCRIPTOR_SIZE * self.list@.len()
                &&& read_u64(payload, at) == self.list@[k].start_of_memory
                &&& size == self.list@[k].buf.bytes().len()
                &&& lies_at(
                    payload,
                    base + sizes_before(self.list@, k) - pos,
                    self.list@[k].buf.bytes(),
                )
            }),
    {
        let list = self.list@;
        let n = list.len() as int;
        let payload = self.payload(pos);
        let at = 16 + MEMORY_DESCRIPTOR_SIZE * k;
        let count = u64_le(low64(n));
        let base = u64_le(low64(memory64_base(list, pos)));
        let record = memory64_record(list, k);
        self.lemma_parts(pos, k);
        lemma_memory_data_len(list, k);
        lemma_low64_exact(n);
        lemma_low64_exact(memory64_base(list, pos));
        lemma_low64_exact(list[k].buf.bytes().len() as int);
        lemma_read_u64(low64(n));
        lemma_read_u64_within(payload, 0, count, 0);
        lemma_read_u64(low64(memory64_base(list, pos)));
        lemma_read_u64_within(payload, 8, base, 0);
        lemma_memory_descriptor64_fields(
            list[k].start_of_memory,
            low64(list[k].buf.bytes().len() as int),
        );
        lemma_read_u64_within(payload, at, record, 0);
        lemma_read_u64_within(payload, at, record, 8);
    }
}

impl SystemInfoStream {
    /// In a system-info stream that ends within the first 2^32 bytes of the
    /// file, the record carries the version as held, and its service-pack
    /// offset is the absolute offset right after the record, where a stored
    /// text lies that reads back as the service-pack name.
    pub proof fn service_pack_resolves(&self, pos: int)
        requires
            0 <= pos,
            pos + self.payload(pos).len() <= 0x1_0000_0000,
        ensures
            ({
                let payload = self.payload(pos);
                let rva = read_u32(payload, 24);
                &&& read_u32(payload, 8) == self.system_info.major_version
                &&& read_u32(payload, 12) == self.system_info.minor_version
                &&& read_u32(payload, 16) == self.system_info.build_number
                &&& rva == pos + SYSTEM_INFO_SIZE
                &&& lies_at(payload, rva - pos, text_blob(self.service_pack_str@))
                &&& read_text(payload, rva - pos) == Some(self.service_pack_str@)
            }),
    {
        let payload = self.payload(pos);
        let csd = low32(pos + SYSTEM_INFO_SIZE);
        let record = system_info_bytes(self.system_info, csd);
        let text = self.service_pack_str@;
        let blob = text_blob(text);
        lemma_system_info_fields(self.system_info, csd);
        lemma_text_blob_len(text);
        lemma_low32_exact(pos + SYSTEM_INFO_SIZE);
        lemma_lies_in_itself(record);
        lemma_lies_in_left(record, blob, 0, record);
        lemma_lies_in_itself(blob);
        lemma_lies_in_right(record, blob, 0, blob);
        lemma_read_u32_within(payload, 0, record, 8);
        lemma_read_u32_within(payload, 0, record, 12);
        lemma_read_u32_within(payload, 0, record, 16);
        lemma_read_u32_within(payload, 0, record, 24);
        lemma_read_text_within(payload, SYSTEM_INFO_SIZE as int, text);
    }
}

} // verus!
