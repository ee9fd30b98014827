//! The container: a header, one directory entry per registered stream, and
//! the payloads in registration order, each followed by one to four zero
//! bytes that bring the next payload to a multiple of four.

use crate::codec::{lemma_low32_exact, low32, put_bytes, put_zeros, read_u32, truncate32, zeros};
use crate::format::{
    directory_entry_bytes, header_bytes, lemma_directory_entry_fields, lemma_header_fields,
    put_directory_entry, put_header, DIRECTORY_ENTRY_SIZE, HEADER_SIZE,
};
use crate::streams::MinidumpStream;
use crate::window::{
    lemma_lies_in_itself, lemma_lies_in_left, lemma_lies_in_right, lemma_lies_within,
    lemma_read_u32_within, lies_at,
};
use vstd::prelude::*;
use vstd::slice::slice_subrange;

verus! {

/// The number of zero bytes that follow a payload ending at offset `end`:
/// what is missing to the next multiple of four, and four where nothing is.
#[verifier::opaque]
pub open spec fn padding(end: int) -> int {
    4 - end % 4
}

/// Padding is one to four bytes and ends on a multiple of four.
pub proof fn lemma_padding(end: int)
    ensures
        1 <= padding(end) <= 4,
        (end + padding(end)) % 4 == 0,
        zeros(padding(end)).len() == padding(end),
{
    reveal(padding);
}

/// A dump under construction: the streams that it will hold, in the order
/// in which the directory will list them.
pub struct Minidump {
    pub directory: Vec<Box<dyn MinidumpStream>>,
}

impl Default for Minidump {
    fn default() -> (dump: Self)
        ensures
            dump.directory@.len() == 0,
    {
        Minidump { directory: Vec::new() }
    }
}

impl Minidump {
    /// The absolute offset at which the first payload begins: past the
    /// header and the whole directory.
    pub open spec fn payload_base(&self) -> int {
        HEADER_SIZE + DIRECTORY_ENTRY_SIZE * self.directory@.len()
    }

    /// Where the payload of stream `i` begins, counted from the payload
    /// base: past every earlier payload and its padding. For `i` the number
    /// of streams, the length of all payloads with their padding.
    pub open spec fn stream_start(&self, i: int) -> int
        decreases i,
    {
        if i <= 0 {
            0
        } else {
            let start = self.stream_start(i - 1);
            let end = start + self.directory@[i - 1].payload(self.payload_base() + start).len();
            end + padding(end)
        }
    }

    /// The absolute offset at which the payload of stream `i` begins.
    pub open spec fn stream_rva(&self, i: int) -> int {
        self.payload_base() + self.stream_start(i)
    }

    /// The payload of stream `i`, written for the offset at which it begins.
    pub open spec fn stream_payload(&self, i: int) -> Seq<u8> {
        self.directory@[i].payload(self.stream_rva(i))
    }

    /// The payloads of the first `k` streams, each followed by its padding.
    pub open spec fn payload_region(&self, k: int) -> Seq<u8>
        decreases k,
    {
        if k <= 0 {
            Seq::empty()
        } else {
            self.payload_region(k - 1) + self.stream_payload(k - 1) + zeros(
                padding(self.stream_start(k - 1) + self.stream_payload(k - 1).len()),
            )
        }
    }

    /// The directory entry of stream `i`: its tag, the size of its payload
    /// without padding, and the absolute offset of its payload, the last two
    /// as far as 32 bits hold them.
    pub open spec fn directory_entry(&self, i: int) -> Seq<u8> {
        directory_entry_bytes(
            self.directory@[i].tag(),
            low32(self.stream_payload(i).len() as int),
            low32(self.stream_rva(i)),
        )
    }

    /// The directory entries of the first `k` streams.
    pub open spec fn directory_region(&self, k: int) -> Seq<u8>
        decreases k,
    {
        if k <= 0 {
            Seq::empty()
        } else {
            self.directory_region(k - 1) + self.directory_entry(k - 1)
        }
    }

    /// The whole file: the header, the directory, the payloads.
    pub open spec fn file_bytes(&self) -> Seq<u8> {
        let n = self.directory@.len() as int;
        header_bytes(low32(n), HEADER_SIZE as u32) + self.directory_region(n)
            + self.payload_region(n)
    }

    /// Appends the whole file to `writer`. Offsets in the file count from
    /// the first byte appended.
    pub fn write_all(&self, writer: &mut Vec<u8>)
        ensures
            final(writer)@ == old(writer)@ + self.file_bytes(),
    {
        let n: usize = self.directory.len();
        // The image has the length of the file written so far, so that its
        // length is the absolute offset of whatever comes next. Header and
        // directory are held open with zeros and emitted from `entries`.
        let mut image: Vec<u8> = Vec::new();
        put_zeros(&mut image, HEADER_SIZE);
        let mut reserved: usize = 0;
        while reserved < n
            invariant
                reserved <= n,
                image@.len() == HEADER_SIZE + DIRECTORY_ENTRY_SIZE * reserved,
            decreases n - reserved,
        {
            put_zeros(&mut image, DIRECTORY_ENTRY_SIZE);
            reserved += 1;
        }
        let base: usize = image.len();
        let ghost prefix = image@;
        let mut entries: Vec<u8> = Vec::new();
        let mut i: usize = 0;
        while i < n
            invariant
                i <= n,
                n == self.directory@.len(),
                base == self.payload_base(),
                prefix.len() == base,
                image@ == prefix + self.payload_region(i as int),
                image@.len() == base + self.stream_start(i as int),
                entries@ == self.directory_region(i as int),
            decreases n - i,
        {
            let stream = &self.directory[i];
            let tag: u32 = stream.stream_type();
            let pos_start: usize = image.len();
            stream.write(pos_start, &mut image);
            let pos_end: usize = image.len();
            let gap: usize = 4 - (pos_end - base) % 4;
            proof {
                reveal(padding);
            }
            put_zeros(&mut image, gap);
            put_directory_entry(
                &mut entries,
                tag,
                truncate32((pos_end - pos_start) as u128),
                truncate32(pos_start as u128),
            );
            i += 1;
            assert(image@ =~= prefix + self.payload_region(i as int));
        }
        put_header(writer, truncate32(n as u128), HEADER_SIZE as u32);
        put_bytes(writer, entries.as_slice());
        put_bytes(writer, slice_subrange(image.as_slice(), base, image.len()));
        assert(image@.subrange(base as int, image@.len() as int) =~= self.payload_region(
            n as int,
        ));
        assert(writer@ =~= old(writer)@ + self.file_bytes());
    }
}

impl Minidump {
    /// Where the payload of stream `i` ends, counted from the payload base
    /// and before its padding.
    pub open spec fn stream_end(&self, i: int) -> int {
        self.stream_start(i) + self.stream_payload(i).len()
    }

    /// The directory and the payloads of the first `k` streams have the
    /// lengths that the layout gives them; every payload begins at a
    /// multiple of four, and one to four bytes past the end of the payload
    /// before it.
    pub proof fn lemma_region_lengths(&self, k: int)
        requires
            0 <= k <= self.directory@.len(),
        ensures
            self.directory_region(k).len() == DIRECTORY_ENTRY_SIZE * k,
            self.payload_region(k).len() == self.stream_start(k),
            self.stream_start(k) % 4 == 0,
            k > 0 ==> self.stream_end(k - 1) < self.stream_start(k) <= self.stream_end(k - 1) + 4,
        decreases k,
    {
        if k > 0 {
            self.lemma_region_lengths(k - 1);
            lemma_padding(self.stream_end(k - 1));
            lemma_directory_entry_fields(
                self.directory@[k - 1].tag(),
                low32(self.stream_payload(k - 1).len() as int),
                low32(self.stream_rva(k - 1)),
            );
        }
    }

    /// A later stream begins past the end of an earlier one.
    pub proof fn lemma_streams_in_order(&self, i: int, j: int)
        requires
            0 <= i < j <= self.directory@.len(),
        ensures
            0 <= self.stream_start(i) <= self.stream_end(i) < self.stream_start(j),
        decreases j,
    {
        self.lemma_region_lengths(i);
        self.lemma_region_lengths(j);
        if i + 1 < j {
            self.lemma_streams_in_order(i, j - 1);
            self.lemma_region_lengths(j - 1);
        }
    }

    /// Every stream begins at a multiple of four.
    pub proof fn lemma_stream_aligned(&self, i: int)
        requires
            0 <= i <= self.directory@.len(),
        ensures
            self.stream_rva(i) % 4 == 0,
    {
        self.lemma_region_lengths(i);
    }

    /// The entry of stream `i` lies at its place among the first `k`
    /// entries.
    pub proof fn lemma_entry_in_directory(&self, k: int, i: int)
        requires
            0 <= i < k <= self.directory@.len(),
        ensures
            lies_at(self.directory_region(k), DIRECTORY_ENTRY_SIZE * i, self.directory_entry(i)),
        decreases k,
    {
        let earlier = self.directory_region(k - 1);
        let last = self.directory_entry(k - 1);
        if i + 1 < k {
            self.lemma_entry_in_directory(k - 1, i);
            lemma_lies_in_left(earlier, last, DIRECTORY_ENTRY_SIZE * i, self.directory_entry(i));
        } else {
            self.lemma_region_lengths(k - 1);
            lemma_lies_in_itself(last);
            lemma_lies_in_right(earlier, last, 0, last);
        }
    }

    /// The payload of stream `i` lies at its place among the first `k`
    /// payloads.
    pub proof fn lemma_payload_in_region(&self, k: int, i: int)
        requires
            0 <= i < k <= self.directory@.len(),
        ensures
            lies_at(self.payload_region(k), self.stream_start(i), self.stream_payload(i)),
        decreases k,
    {
        let earlier = self.payload_region(k - 1);
        let last = self.stream_payload(k - 1);
        let gap = zeros(padding(self.stream_end(k - 1)));
        if i + 1 < k {
            self.lemma_payload_in_region(k - 1, i);
            lemma_lies_in_left(earlier, last, self.stream_start(i), self.stream_payload(i));
            lemma_lies_in_left(earlier + last, gap, self.stream_start(i), self.stream_payload(i));
        } else {
            self.lemma_region_lengths(k - 1);
            lemma_lies_in_itself(last);
            lemma_lies_in_right(earlier, last, 0, last);
            lemma_lies_in_left(earlier + last, gap, self.stream_start(i), last);
        }
    }

    /// The file is the header, then the directory, then the payloads.
    pub proof fn lemma_file_parts(&self)
        ensures
            ({
                let n = self.directory@.len() as int;
                let file = self.file_bytes();
                &&& file.len() == self.payload_base() + self.stream_start(n)
                &&& 0 <= self.stream_start(n)
                &&& lies_at(file, 0, header_bytes(low32(n), HEADER_SIZE as u32))
                &&& lies_at(file, HEADER_SIZE as int, self.directory_region(n))
                &&& lies_at(file, self.payload_base(), self.payload_region(n))
            }),
    {
        let n = self.directory@.len() as int;
        let header = header_bytes(low32(n), HEADER_SIZE as u32);
        let directory = self.directory_region(n);
        let payloads = self.payload_region(n);
        lemma_header_fields(low32(n), HEADER_SIZE as u32);
        self.lemma_region_lengths(n);
        lemma_lies_in_itself(header);
        lemma_lies_in_left(header, directory, 0, header);
        lemma_lies_in_left(header + directory, payloads, 0, header);
        lemma_lies_in_itself(directory);
        lemma_lies_in_right(header, directory, 0, directory);
        lemma_lies_in_left(header + directory, payloads, HEADER_SIZE as int, directory);
        lemma_lies_in_itself(payloads);
        lemma_lies_in_right(header + directory, payloads, 0, payloads);
    }

    /// The entry of stream `i` lies in the file at its place in the
    /// directory.
    pub proof fn lemma_entry_in_file(&self, i: int)
        requires
            0 <= i < self.directory@.len(),
        ensures
            lies_at(
                self.file_bytes(),
                HEADER_SIZE + DIRECTORY_ENTRY_SIZE * i,
                self.directory_entry(i),
            ),
    {
        let n = self.directory@.len() as int;
        self.lemma_file_parts();
        self.lemma_entry_in_directory(n, i);
        lemma_lies_within(
            self.file_bytes(),
            HEADER_SIZE as int,
            self.directory_region(n),
            DIRECTORY_ENTRY_SIZE * i,
            self.directory_entry(i),
        );
    }

    /// The payload of stream `i` lies in the file at the offset at which the
    /// stream begins, and the file goes on past it.
    pub proof fn lemma_payload_in_file(&self, i: int)
        requires
            0 <= i < self.directory@.len(),
        ensures
            self.payload_base() <= self.stream_rva(i),
            self.stream_rva(i) + self.stream_payload(i).len() < self.file_bytes().len(),
            lies_at(self.file_bytes(), self.stream_rva(i), self.stream_payload(i)),
    {
        let n = self.directory@.len() as int;
        self.lemma_file_parts();
        self.lemma_streams_in_order(i, n);
        self.lemma_payload_in_region(n, i);
        lemma_lies_within(
            self.file_bytes(),
            self.payload_base(),
            self.payload_region(n),
            self.stream_start(i),
            self.stream_payload(i),
        );
    }

    /// What the three fields of the entry of stream `i` read as in the file.
    proof fn lemma_read_entry(&self, i: int)
        requires
            0 <= i < self.directory@.len(),
        ensures
            ({
                let file = self.file_bytes();
                let at = HEADER_SIZE + DIRECTORY_ENTRY_SIZE * i;
                &&& read_u32(file, at) == self.directory@[i].tag()
                &&& read_u32(file, at + 4) == low32(self.stream_payload(i).len() as int)
                &&& read_u32(file, at + 8) == low32(self.stream_rva(i))
            }),
    {
        let file = self.file_bytes();
        let at = HEADER_SIZE + DIRECTORY_ENTRY_SIZE * i;
        let entry = self.directory_entry(i);
        self.lemma_entry_in_file(i);
        lemma_directory_entry_fields(
            self.directory@[i].tag(),
            low32(self.stream_payload(i).len() as int),
            low32(self.stream_rva(i)),
        );
        lemma_read_u32_within(file, at, entry, 0);
        lemma_read_u32_within(file, at, entry, 4);
        lemma_read_u32_within(file, at, entry, 8);
    }

    /// The header gives the number of registered streams, as far as 32 bits
    /// hold it, and the offset of the directory right after itself; the
    /// directory has one entry for each registered stream, in registration
    /// order; the payloads follow the directory at once and end the file.
    pub proof fn stream_count_is_consistent(&self)
        ensures
            ({
                let n = self.directory@.len() as int;
                let file = self.file_bytes();
                &&& read_u32(file, 8) == low32(n)
                &&& n < 0x1_0000_0000 ==> read_u32(file, 8) == n
                &&& read_u32(file, 12) == HEADER_SIZE
                &&& self.directory_region(n).len() == DIRECTORY_ENTRY_SIZE * n
                &&& lies_at(file, HEADER_SIZE as int, self.directory_region(n))
                &&& forall|i: int|
                    0 <= i < n ==> lies_at(
                        file,
                        HEADER_SIZE + DIRECTORY_ENTRY_SIZE * i,
                        #[trigger] self.directory_entry(i),
                    )
                &&& lies_at(file, self.payload_base(), self.payload_region(n))
                &&& file.len() == self.payload_base() + self.payload_region(n).len()
            }),
    {
        let n = self.directory@.len() as int;
        let file = self.file_bytes();
        let header = header_bytes(low32(n), HEADER_SIZE as u32);
        self.lemma_file_parts();
        self.lemma_region_lengths(n);
        lemma_header_fields(low32(n), HEADER_SIZE as u32);
        lemma_read_u32_within(file, 0, header, 8);
        lemma_read_u32_within(file, 0, header, 12);
        if n < 0x1_0000_0000 {
            lemma_low32_exact(n);
        }
        assert forall|i: int| 0 <= i < n implies lies_at(
            file,
            HEADER_SIZE + DIRECTORY_ENTRY_SIZE * i,
            #[trigger] self.directory_entry(i),
        ) by {
            self.lemma_entry_in_file(i);
        }
    }

    /// In a file of at most 2^32 bytes, the directory entry of every stream
    /// carries the stream's tag, the size of its payload without padding and
    /// the offset of its payload; the bytes of the file at that offset are
    /// the payload that the stream writes for that offset; the offset is a
    /// multiple of four, not before the payload base, and the next entry's
    /// offset lies past the end of this payload.
    pub proof fn directory_locates_payloads(&self, i: int)
        requires
            0 <= i < self.directory@.len(),
            self.file_bytes().len() <= 0x1_0000_0000,
        ensures
            ({
                let file = self.file_bytes();
                let at = HEADER_SIZE + DIRECTORY_ENTRY_SIZE * i;
                let size = read_u32(file, at + 4);
                let rva = read_u32(file, at + 8);
                &&& read_u32(file, at) == self.directory@[i].tag()
                &&& size == self.directory@[i].payload(rva).len()
                &&& rva == self.stream_rva(i)
                &&& rva >= self.payload_base()
                &&& rva % 4 == 0
                &&& rva + size < file.len()
                &&& lies_at(file, rva, self.directory@[i].payload(rva))
                &&& i + 1 < self.directory@.len() ==> rva + size < read_u32(
                    file,
                    at + DIRECTORY_ENTRY_SIZE + 8,
                )
            }),
    {
        let n = self.directory@.len() as int;
        let file = self.file_bytes();
        let len = self.stream_payload(i).len() as int;
        let off = self.stream_rva(i);
        self.lemma_payload_in_file(i);
        self.lemma_stream_aligned(i);
        self.lemma_read_entry(i);
        lemma_low32_exact(len);
        lemma_low32_exact(off);
        if i + 1 < n {
            let next = self.stream_rva(i + 1);
            self.lemma_streams_in_order(i, i + 1);
            self.lemma_payload_in_file(i + 1);
            self.lemma_read_entry(i + 1);
            lemma_low32_exact(next);
        }
    }

    /// Two dumps whose streams agree, place by place, in tag and in the
    /// payload they write for every offset, start their streams at the same
    /// places.
    pub proof fn lemma_same_layout(&self, other: &Minidump, k: int)
        requires
            self.directory@.len() == other.directory@.len(),
            forall|i: int|
                0 <= i < self.directory@.len() ==> #[trigger] self.directory@[i].tag()
                    == other.directory@[i].tag(),
            forall|i: int, pos: int|
                0 <= i < self.directory@.len() ==> #[trigger] self.directory@[i].payload(pos)
                    == other.directory@[i].payload(pos),
            0 <= k <= self.directory@.len(),
        ensures
            self.stream_start(k) == other.stream_start(k),
            self.payload_region(k) == other.payload_region(k),
            self.directory_region(k) == other.directory_region(k),
        decreases k,
    {
        if k > 0 {
            self.lemma_same_layout(other, k - 1);
            assert(self.directory@[k - 1].tag() == other.directory@[k - 1].tag());
            assert(self.stream_payload(k - 1) == other.stream_payload(k - 1));
        }
    }

    /// The file is determined by the streams alone: two dumps whose streams
    /// agree, place by place, in tag and in the payload they write for
    /// every offset, are the same file, byte for byte.
    pub proof fn output_is_determined_by_streams(&self, other: &Minidump)
        requires
            self.directory@.len() == other.directory@.len(),
            forall|i: int|
                0 <= i < self.directory@.len() ==> #[trigger] self.directory@[i].tag()
                    == other.directory@[i].tag(),
            forall|i: int, pos: int|
                0 <= i < self.directory@.len() ==> #[trigger] self.directory@[i].payload(pos)
                    == other.directory@[i].payload(pos),
        ensures
            self.file_bytes() == other.file_bytes(),
    {
        self.lemma_same_layout(other, self.directory@.len() as int);
    }

    /// Encoding is repeatable: whatever two writers held before, what
    /// `write_all` appends to the one is, byte for byte, what it appends to
    /// the other.
    pub proof fn encoding_is_repeatable(
        &self,
        held1: Seq<u8>,
        written1: Seq<u8>,
        held2: Seq<u8>,
        written2: Seq<u8>,
    )
        requires
            written1 == held1 + self.file_bytes(),
            written2 == held2 + self.file_bytes(),
        ensures
            lies_at(written1, held1.len() as int, self.file_bytes()),
            lies_at(written2, held2.len() as int, self.file_bytes()),
            written1.len() - held1.len() == written2.len() - held2.len(),
    {
        lemma_lies_in_itself(self.file_bytes());
        lemma_lies_in_right(held1, self.file_bytes(), 0, self.file_bytes());
        lemma_lies_in_right(held2, self.file_bytes(), 0, self.file_bytes());
    }
}

} // verus!
