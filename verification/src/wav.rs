//! The WAV container parser: locates the "fmt " and "data" chunks, exposes
//! the sample-format descriptor, and reads raw sample data sequentially.
//!
//! Two documented simplifications of this parser: the "fmt " chunk's fields
//! are assumed to lie within the first block of the file, and chunk headers
//! are assumed not to straddle block boundaries (see the chunk walker).

use vstd::bytes::spec_u16_from_le_bytes;
use vstd::bytes::spec_u32_from_le_bytes;
use vstd::prelude::*;

use crate::binary_helpers::convert_to_signed;
use crate::block_device::BlockDevice;
use crate::bytes::le_u16_at;
use crate::bytes::le_u32_at;
use crate::exfat::ExFat;
use crate::exfat::FsEntry;
use crate::riff::get_first_chunk;
use crate::riff::spec_next_chunk;
use crate::riff::ChunkInfo;
use crate::riff::ChunkSpec;
use crate::BLOCK_SIZE;

verus! {

/// How many blocks one buffered sample read gathers.
pub const BUFFER_BLOCKS: usize = 100;

/// The encoding declared by the "fmt " chunk's format code.
#[derive(PartialEq, Eq, Structural, Debug, Clone, Copy)]
pub enum Format {
    Pcm,
    IeeeFloat,
    Alaw,
    Mulaw,
    Other,
}

/// The [`Format`] denoted by a format code.
pub open spec fn spec_decode_format(format_code: u16) -> Format {
    if format_code == 0x0001 {
        Format::Pcm
    } else if format_code == 0x0003 {
        Format::IeeeFloat
    } else if format_code == 0x0006 {
        Format::Alaw
    } else if format_code == 0x0007 {
        Format::Mulaw
    } else {
        Format::Other
    }
}

impl Format {
    /// Decodes the "fmt " chunk's format code.
    pub fn decode_format(format_code: u16) -> (r: Format)
        ensures
            r == spec_decode_format(format_code),
    {
        match format_code {
            0x0001 => Format::Pcm,
            0x0003 => Format::IeeeFloat,
            0x0006 => Format::Alaw,
            0x0007 => Format::Mulaw,
            _ => Format::Other,
        }
    }
}

/// The identifier of the "fmt " chunk.
pub open spec fn fmt_tag() -> Seq<u8> {
    seq![0x66u8, 0x6du8, 0x74u8, 0x20u8]
}

/// The identifier of the "data" chunk.
pub open spec fn data_tag() -> Seq<u8> {
    seq![0x64u8, 0x61u8, 0x74u8, 0x61u8]
}

/// The raw fields of a "fmt " chunk.
pub struct FmtFields {
    pub format_code: u16,
    pub n_channels: u16,
    pub sample_rate: u32,
    pub byte_rate: u32,
    pub block_align: u16,
    pub bits_per_sample: u16,
}

/// The "fmt " fields read from the file's first block, for a chunk starting
/// at byte `cs` of that block. `None` when the fields would not lie within
/// the first block, or when the channel count is zero (so no bytes-per-
/// channel can be derived).
pub open spec fn spec_fmt_at<T: BlockDevice>(d: T, start: u32, cs: int) -> Option<FmtFields> {
    let blk = d.block_at(start);
    if 0 <= cs && cs + 24 <= BLOCK_SIZE {
        let f = FmtFields {
            format_code: spec_u16_from_le_bytes(blk.subrange(cs + 8, cs + 10)),
            n_channels: spec_u16_from_le_bytes(blk.subrange(cs + 10, cs + 12)),
            sample_rate: spec_u32_from_le_bytes(blk.subrange(cs + 12, cs + 16)),
            byte_rate: spec_u32_from_le_bytes(blk.subrange(cs + 16, cs + 20)),
            block_align: spec_u16_from_le_bytes(blk.subrange(cs + 20, cs + 22)),
            bits_per_sample: spec_u16_from_le_bytes(blk.subrange(cs + 22, cs + 24)),
        };
        if f.n_channels == 0 {
            None
        } else {
            Some(f)
        }
    } else {
        None
    }
}

/// What the bounded chunk walk finds from chunk `cur` on, with `fmt` the
/// "fmt " fields already seen and `hops` the number of chunk examinations
/// left: the fields, the byte address of the first data byte, and the data
/// chunk's declared length.
pub open spec fn spec_open_loop<T: BlockDevice>(
    d: T,
    start: u32,
    cur: ChunkSpec,
    fmt: Option<FmtFields>,
    hops: nat,
) -> Option<(FmtFields, u32, u32)>
    decreases hops,
{
    if hops == 0 {
        None
    } else if cur.id == fmt_tag() {
        match spec_fmt_at(d, start, cur.chunk_start as int) {
            Some(f) => match spec_next_chunk(d, start, cur.next_chunk) {
                Some(c2) => spec_open_loop(d, start, c2, Some(f), (hops - 1) as nat),
                None => None,
            },
            None => None,
        }
    } else if cur.id == data_tag() {
        match fmt {
            Some(f) => {
                if cur.chunk_start + 8 <= u32::MAX {
                    Some((f, (cur.chunk_start + 8) as u32, cur.length))
                } else {
                    None
                }
            },
            None => None,
        }
    } else {
        match spec_next_chunk(d, start, cur.next_chunk) {
            Some(c2) => spec_open_loop(d, start, c2, fmt, (hops - 1) as nat),
            None => None,
        }
    }
}

/// What opening the file starting at block `start` finds: the walk starts
/// at byte 0 and examines at most ten chunks.
pub open spec fn spec_open<T: BlockDevice>(d: T, start: u32) -> Option<(FmtFields, u32, u32)> {
    match spec_next_chunk(d, start, 0) {
        Some(c0) => spec_open_loop(d, start, c0, None::<FmtFields>, 10),
        None => None,
    }
}

/// An opened WAV file: its location on the volume, the sample-format
/// descriptor from its "fmt " chunk, and the cursor of the sequential data
/// reads.
#[derive(Debug, Clone, Copy)]
pub struct WavFile {
    /// First block of the file on the device.
    pub start_block_address: u32,
    /// Declared length of the data chunk in bytes.
    pub data_length: u32,
    /// Byte address of the first byte of the data chunk's payload.
    pub first_byte: u32,
    /// Bytes of sample data already consumed.
    pub bytes_read: u32,
    pub format: Format,
    pub n_channels: u16,
    /// Samples per second.
    pub sample_rate: u32,
    /// Bytes per second.
    pub byte_rate: u32,
    /// Bytes for one multi-channel sample frame.
    pub block_align: u16,
    /// Audio bit depth.
    pub bits_per_sample: u16,
    /// Bytes for one channel of one frame.
    pub bytes_per_channel: u16,
}

impl WavFile {
    /// The descriptor fields of `w` equal those of the "fmt " fields `f`.
    pub open spec fn descriptor_from(self, f: FmtFields) -> bool {
        &&& self.format == spec_decode_format(f.format_code)
        &&& self.n_channels == f.n_channels
        &&& self.sample_rate == f.sample_rate
        &&& self.byte_rate == f.byte_rate
        &&& self.block_align == f.block_align
        &&& self.bits_per_sample == f.bits_per_sample
        &&& self.bytes_per_channel == f.block_align / f.n_channels
    }

    /// Opens the file described by `file`: walks its chunks (at most ten)
    /// until the "data" chunk, parsing the "fmt " chunk on the way, and
    /// fails unless both were found.
    pub fn new<T: BlockDevice>(exfat: &mut ExFat<T>, file: &FsEntry) -> (r: Result<WavFile, ()>)
        requires
            old(exfat).cluster_in_range(file.first_cluster),
        ensures
            forall|a: u32| #[trigger]
                final(exfat).block_device.block_at(a) == old(exfat).block_device.block_at(a),
            old(exfat).same_geometry(*final(exfat)),
            r matches Ok(w) ==> w.start_block_address == old(exfat).spec_cluster_sector(
                file.first_cluster,
            ) as u32 && w.bytes_read == 0 && (match spec_open(
                old(exfat).block_device,
                w.start_block_address,
            ) {
                Some(found) => w.descriptor_from(found.0) && w.first_byte == found.1
                    && w.data_length == found.2,
                None => false,
            }),
            spec_open(
                old(exfat).block_device,
                old(exfat).spec_cluster_sector(file.first_cluster) as u32,
            ) is None ==> r is Err,
    {
        let ghost d = old(exfat).block_device;
        let start_block_address: u32 = exfat.calc_cluster_sector(file.first_cluster);

        let mut wav_file = WavFile {
            start_block_address,
            data_length: 0,
            first_byte: 0,
            bytes_read: 0,
            format: Format::Other,
            n_channels: 0,
            sample_rate: 0,
            byte_rate: 0,
            block_align: 0,
            bits_per_sample: 0,
            bytes_per_channel: 0,
        };

        let mut current_chunk: ChunkInfo = match get_first_chunk(
            start_block_address,
            &mut exfat.block_device,
        ) {
            Ok(c) => c,
            Err(()) => { return Err(()) },
        };
        let ghost mut gfmt: Option<FmtFields> = None;
        let mut found_format_chunk = false;

        let fmt_id: [u8; 4] = [0x66, 0x6d, 0x74, 0x20];
        let data_id: [u8; 4] = [0x64, 0x61, 0x74, 0x61];
        proof {
            assert(fmt_id@ =~= fmt_tag());
            assert(data_id@ =~= data_tag());
        }

        let mut hop: usize = 0;
        while hop < 10
            invariant
                hop <= 10,
                d == old(exfat).block_device,
                forall|a: u32| #[trigger]
                    exfat.block_device.block_at(a) == old(exfat).block_device.block_at(a),
                old(exfat).same_geometry(*exfat),
                fmt_id@ == fmt_tag(),
                data_id@ == data_tag(),
                start_block_address == old(exfat).spec_cluster_sector(file.first_cluster) as u32,
                wav_file.start_block_address == start_block_address,
                wav_file.bytes_read == 0,
                found_format_chunk <==> gfmt is Some,
                gfmt matches Some(f) ==> wav_file.descriptor_from(f),
                spec_open(d, start_block_address) == spec_open_loop(
                    d,
                    start_block_address,
                    current_chunk@,
                    gfmt,
                    (10 - hop) as nat,
                ),
            decreases 10 - hop,
        {
            if crate::riff::tag_eq(&current_chunk.identifier, &fmt_id) {
                // The "fmt " fields are assumed to lie within the file's
                // first block.
                if current_chunk.chunk_start > (BLOCK_SIZE - 24) as u64 {
                    return Err(());
                }
                let cs = current_chunk.chunk_start as usize;
                let first_block = match exfat.block_device.read_block(start_block_address) {
                    Ok(b) => b,
                    Err(()) => { return Err(()) },
                };
                let format_code = le_u16_at(first_block.as_slice(), cs + 8);
                let n_channels = le_u16_at(first_block.as_slice(), cs + 10);
                let sample_rate = le_u32_at(first_block.as_slice(), cs + 12);
                let byte_rate = le_u32_at(first_block.as_slice(), cs + 16);
                let block_align = le_u16_at(first_block.as_slice(), cs + 20);
                let bits_per_sample = le_u16_at(first_block.as_slice(), cs + 22);
                if n_channels == 0 {
                    return Err(());
                }
                let bytes_per_channel = block_align / n_channels;
                wav_file.format = Format::decode_format(format_code);
                wav_file.n_channels = n_channels;
                wav_file.sample_rate = sample_rate;
                wav_file.byte_rate = byte_rate;
                wav_file.block_align = block_align;
                wav_file.bits_per_sample = bits_per_sample;
                wav_file.bytes_per_channel = bytes_per_channel;
                found_format_chunk = true;
                proof {
                    gfmt = spec_fmt_at(d, start_block_address, current_chunk@.chunk_start as int);
                    assert(gfmt is Some);
                }
            } else if crate::riff::tag_eq(&current_chunk.identifier, &data_id) {
                if current_chunk.chunk_start > u32::MAX as u64 - 8 {
                    return Err(());
                }
                wav_file.first_byte = (current_chunk.chunk_start as u32) + 8;
                wav_file.data_length = current_chunk.length;
                if found_format_chunk {
                    return Ok(wav_file);
                } else {
                    return Err(());
                }
            }
            current_chunk = match current_chunk.get_next_chunk(
                &mut exfat.block_device,
                start_block_address,
            ) {
                Ok(c) => c,
                Err(()) => { return Err(()) },
            };
            hop += 1;
        }
        Err(())
    }
}


/// The alignment cursor a block read starts from: the very first call skips
/// the leading non-sample bytes of the block holding the chunk header.
pub open spec fn aligned_cursor(w: WavFile) -> int {
    if w.bytes_read == 0 {
        BLOCK_SIZE - w.first_byte
    } else {
        w.bytes_read as int
    }
}

/// The absolute block address the next raw read targets.
pub open spec fn next_block_addr(w: WavFile, mid: int) -> int {
    w.start_block_address + (w.first_byte + mid) / (BLOCK_SIZE as int)
}

impl WavFile {
    /// The format descriptor and file location of `self` and `other` agree;
    /// only the consumed-count may differ.
    pub open spec fn same_file(self, other: Self) -> bool {
        &&& self.start_block_address == other.start_block_address
        &&& self.data_length == other.data_length
        &&& self.first_byte == other.first_byte
        &&& self.format == other.format
        &&& self.n_channels == other.n_channels
        &&& self.sample_rate == other.sample_rate
        &&& self.byte_rate == other.byte_rate
        &&& self.block_align == other.block_align
        &&& self.bits_per_sample == other.bits_per_sample
        &&& self.bytes_per_channel == other.bytes_per_channel
    }

    /// Reads the next raw block of sample data into `buf`.
    ///
    /// The first call of a stream works from the cursor advanced past the
    /// leading non-sample bytes, so the block holding the chunk header is
    /// never returned. The read fails once one more block would reach or
    /// pass the declared data length: the final partial block is never
    /// returned (documented truncation), and every later call keeps
    /// failing. A failed call leaves the cursor and the buffer untouched,
    /// so the consumed-count never exceeds the declared length.
    pub fn get_next_pcm_block<T: BlockDevice>(
        &mut self,
        exfat: &mut ExFat<T>,
        buf: &mut [u8; BLOCK_SIZE],
    ) -> (r: Result<(), ()>)
        requires
            old(self).bytes_read == 0 ==> old(self).first_byte <= BLOCK_SIZE as u32,
        ensures
            forall|a: u32| #[trigger]
                final(exfat).block_device.block_at(a) == old(exfat).block_device.block_at(a),
            old(exfat).same_geometry(*final(exfat)),
            old(self).same_file(*final(self)),
            aligned_cursor(*old(self)) + BLOCK_SIZE >= old(self).data_length ==> r is Err,
            r is Ok ==> final(self).bytes_read == aligned_cursor(*old(self)) + BLOCK_SIZE
                && aligned_cursor(*old(self)) + BLOCK_SIZE < old(self).data_length
                && next_block_addr(*old(self), aligned_cursor(*old(self))) <= u32::MAX
                && final(buf)@ == old(exfat).block_device.block_at(
                next_block_addr(*old(self), aligned_cursor(*old(self))) as u32,
            ),
            r is Err ==> *final(self) == *old(self) && final(buf)@ == old(buf)@,
            old(self).bytes_read <= old(self).data_length ==> final(self).bytes_read
                <= final(self).data_length,
    {
        // Alignment, once per stream: the cursor starts past the non-sample
        // bytes in front of the data payload.
        let mid: u32 = if self.bytes_read == 0 {
            (BLOCK_SIZE as u32) - self.first_byte
        } else {
            self.bytes_read
        };

        // The final partial block before the end of the data is never
        // returned; nothing is advanced past the declared length.
        if mid as u64 + BLOCK_SIZE as u64 >= self.data_length as u64 {
            return Err(());
        }
        let offset: u64 = ((self.first_byte as u64) + (mid as u64)) / (BLOCK_SIZE as u64);
        if offset > ((u32::MAX - self.start_block_address) as u64) {
            return Err(());
        }
        let blockaddr: u32 = self.start_block_address + (offset as u32);
        let mut block = [0u8; BLOCK_SIZE];
        match exfat.block_device.read_to_block(blockaddr, &mut block) {
            Ok(()) => {
                *buf = block;
                self.bytes_read = mid + (BLOCK_SIZE as u32);
                Ok(())
            },
            Err(()) => Err(()),
        }
    }
}

/// The first raw block read never touches the block holding the chunk
/// header: after the alignment step the address read is one past the file's
/// first block, while every byte in front of the data payload lies in that
/// first block.
pub proof fn lemma_first_block_skips_header(w: WavFile)
    requires
        w.bytes_read == 0,
        w.first_byte <= BLOCK_SIZE as u32,
    ensures
        next_block_addr(w, aligned_cursor(w)) == w.start_block_address + 1,
{
    assert((w.first_byte + (BLOCK_SIZE - w.first_byte)) / (BLOCK_SIZE as int) == 1);
}


/// The blocks `b0 .. b0 + n` of the device, concatenated.
pub open spec fn concat_blocks<T: BlockDevice>(d: T, b0: int, n: nat) -> Seq<u8>
    decreases n,
{
    if n == 0 {
        Seq::empty()
    } else {
        concat_blocks(d, b0, (n - 1) as nat) + d.block_at((b0 + n - 1) as u32)
    }
}

/// Little-endian value of a short byte sequence.
pub open spec fn le_val(s: Seq<u8>) -> int
    decreases s.len(),
{
    if s.len() == 0 {
        0
    } else {
        s[0] + 256 * le_val(s.drop_first())
    }
}

proof fn lemma_le_val4(s: Seq<u8>)
    requires
        s.len() <= 4,
    ensures
        0 <= le_val(s) < 0x1_0000_0000,
        s.len() == 1 ==> le_val(s) == s[0],
        s.len() == 2 ==> le_val(s) == s[0] + 256 * s[1],
        s.len() == 3 ==> le_val(s) == s[0] + 256 * s[1] + 65536 * s[2],
        s.len() == 4 ==> le_val(s) == s[0] + 256 * s[1] + 65536 * s[2] + 16777216 * s[3],
    decreases s.len(),
{
    if s.len() == 0 {
    } else {
        lemma_le_val4(s.drop_first());
        assert(s.drop_first().len() == s.len() - 1);
        if s.len() >= 2 {
            assert(s.drop_first()[0] == s[1]);
        }
        if s.len() >= 3 {
            assert(s.drop_first()[1] == s[2]);
        }
        if s.len() == 4 {
            assert(s.drop_first()[2] == s[3]);
        }
    }
}

/// The 32-bit two's-complement reading of an unsigned word.
pub open spec fn as_signed32(x: u32) -> int {
    if x < 0x8000_0000 {
        x as int
    } else {
        x as int - 0x1_0000_0000
    }
}

/// The decoded per-channel sample at index `k` of `bytes`: its `bpc` bytes
/// concatenated little-endian, left-shifted so the most significant sample
/// bit is the sign bit of a 32-bit value.
pub open spec fn sample_at(bytes: Seq<u8>, k: int, bpc: int, shift: u32) -> int {
    as_signed32((le_val(bytes.subrange(k * bpc, k * bpc + bpc)) as u32) << shift)
}

/// The trimmed sample bytes one buffered read gathers: `total` bytes of the
/// device from byte `skip` of block `b0` on.
pub open spec fn gathered_bytes<T: BlockDevice>(d: T, b0: int, skip: int, total: int) -> Seq<u8> {
    if total <= 0 {
        Seq::empty()
    } else {
        concat_blocks(d, b0, ((skip + total + 511) / 512) as nat).subrange(skip, skip + total)
    }
}

/// Everything a successful buffered sample read establishes, relating the
/// cursor before (`w_old`) and after (`w_new`), the scratch bytes, and the
/// decoded samples: the scratch holds exactly the in-range sample bytes (the
/// leading alignment bytes of the very first call trimmed, the tail past the
/// declared data length trimmed, at most [`BUFFER_BLOCKS`] blocks), and each
/// output word is the decoded sample of its `bytes_per_channel` bytes.
pub open spec fn samples_read_ok<T: BlockDevice>(
    w_old: WavFile,
    w_new: WavFile,
    d: T,
    bytes: Seq<u8>,
    out: Seq<i32>,
) -> bool {
    let p = w_old.first_byte + w_old.bytes_read;
    let b0 = w_old.start_block_address + p / (BLOCK_SIZE as int);
    let skip = if w_old.bytes_read == 0 {
        (w_old.first_byte % (BLOCK_SIZE as u32)) as int
    } else {
        0
    };
    let remaining = w_old.data_length - w_old.bytes_read;
    let total = if remaining <= BUFFER_BLOCKS * BLOCK_SIZE - skip {
        remaining as int
    } else {
        BUFFER_BLOCKS * BLOCK_SIZE - skip
    };
    let bpc = w_old.bytes_per_channel as int;
    let shift = (32 - w_old.bits_per_sample) as u32;
    &&& b0 <= u32::MAX
    &&& bytes == gathered_bytes(d, b0, skip, total)
    &&& w_new.bytes_read == w_old.bytes_read + total
    &&& out.len() == total / bpc
    &&& forall|k: int| 0 <= k < out.len() ==> #[trigger] out[k] as int == sample_at(
        bytes,
        k,
        bpc,
        shift,
    )
}

impl WavFile {
    /// Buffers up to [`BUFFER_BLOCKS`] blocks of sample data into
    /// `sample_vec` and decodes them into normalized per-channel samples in
    /// `out`.
    ///
    /// The very first call trims the leading non-sample bytes of the block
    /// holding the chunk header; the read stops at the declared data length,
    /// trimming trailing bytes, and a trailing partial sample is dropped.
    /// Sample widths above four bytes per channel are a hard configuration
    /// limit and are excluded by precondition.
    pub fn get_next_samples<T: BlockDevice>(
        &mut self,
        exfat: &mut ExFat<T>,
        sample_vec: &mut Vec<u8>,
        out: &mut Vec<i32>,
    ) -> (r: Result<(), ()>)
        requires
            1 <= old(self).bytes_per_channel <= 4,
            1 <= old(self).bits_per_sample <= 32,
            old(self).bytes_read <= old(self).data_length,
        ensures
            forall|a: u32| #[trigger]
                final(exfat).block_device.block_at(a) == old(exfat).block_device.block_at(a),
            old(exfat).same_geometry(*final(exfat)),
            old(self).same_file(*final(self)),
            r is Ok ==> samples_read_ok(
                *old(self),
                *final(self),
                old(exfat).block_device,
                final(sample_vec)@,
                final(out)@,
            ),
            old(self).start_block_address + (old(self).first_byte + old(self).bytes_read) / (
            BLOCK_SIZE as int) > u32::MAX - BUFFER_BLOCKS ==> r is Err,
            r is Err ==> final(self).bytes_read == old(self).bytes_read,
    {
        let ghost d = old(exfat).block_device;
        // Clear the scratch area so no stale samples are reused.
        *sample_vec = Vec::new();
        *out = Vec::new();

        let p: u64 = (self.first_byte as u64) + (self.bytes_read as u64);
        let offset: u64 = p / (BLOCK_SIZE as u64);
        if offset > ((u32::MAX - BUFFER_BLOCKS as u32) as u64) || self.start_block_address
            > u32::MAX - BUFFER_BLOCKS as u32 - (offset as u32) {
            return Err(());
        }
        let blockaddr: u32 = self.start_block_address + (offset as u32);
        let ghost b0 = blockaddr as int;

        let skip: usize = if self.bytes_read == 0 {
            (self.first_byte % (BLOCK_SIZE as u32)) as usize
        } else {
            0
        };
        let remaining: u32 = self.data_length - self.bytes_read;
        let cap: u32 = (BUFFER_BLOCKS * BLOCK_SIZE) as u32 - (skip as u32);
        let total: u32 = if remaining <= cap {
            remaining
        } else {
            cap
        };

        let mut collected: u32 = 0;
        let mut i: u32 = 0;
        while collected < total
            invariant
                d == old(exfat).block_device,
                forall|a: u32| #[trigger]
                    exfat.block_device.block_at(a) == old(exfat).block_device.block_at(a),
                old(exfat).same_geometry(*exfat),
                *self == *old(self),
                skip < BLOCK_SIZE,
                total <= BUFFER_BLOCKS * BLOCK_SIZE - skip,
                blockaddr <= u32::MAX - BUFFER_BLOCKS as u32,
                b0 == blockaddr as int,
                i <= BUFFER_BLOCKS as u32,
                collected == if i == 0 {
                    0int
                } else if 512 * i - skip <= total {
                    512 * i - skip
                } else {
                    total as int
                },
                collected <= total,
                i >= 1 ==> 512 * i - 512 - skip < total,
                i == 0 ==> sample_vec@ == Seq::<u8>::empty(),
                i >= 1 ==> concat_blocks(d, b0, i as nat).len() == 512 * i && sample_vec@
                    == concat_blocks(d, b0, i as nat).subrange(
                    skip as int,
                    skip + collected as int,
                ),
            decreases total - collected,
        {
            proof {
                assert(i < BUFFER_BLOCKS as u32) by {
                    if i >= BUFFER_BLOCKS as u32 {
                        assert(collected == if 512 * i - skip <= total {
                            512 * i - skip
                        } else {
                            total as int
                        });
                    }
                }
            }
            let block = match exfat.block_device.read_block(blockaddr + i) {
                Ok(b) => b,
                Err(()) => { return Err(()) },
            };
            let from: usize = if i == 0 {
                skip
            } else {
                0
            };
            let room: u32 = (BLOCK_SIZE - from) as u32;
            let left: u32 = total - collected;
            let take: u32 = if room <= left {
                room
            } else {
                left
            };
            let ghost sv_before = sample_vec@;
            let mut j: usize = 0;
            while j < take as usize
                invariant
                    j <= take as usize,
                    from + take as usize <= BLOCK_SIZE,
                    sample_vec@ == sv_before + block@.subrange(from as int, from + j as int),
                decreases take as usize - j,
            {
                proof {
                    assert(sv_before + block@.subrange(from as int, from + j as int) + seq![
                        block@[from + j as int],
                    ] =~= sv_before + block@.subrange(from as int, from + j + 1 as int));
                }
                sample_vec.push(block[from + j]);
                j += 1;
            }
            proof {
                let n1 = (i + 1) as nat;
                assert(concat_blocks(d, b0, n1) == concat_blocks(d, b0, i as nat) + d.block_at(
                    (b0 + i) as u32,
                ));
                assert((b0 + i) as u32 == blockaddr + i);
                assert(concat_blocks(d, b0, n1).len() == 512 * i + 512);
                assert(sample_vec@ =~= concat_blocks(d, b0, n1).subrange(
                    skip as int,
                    skip + (collected + take) as int,
                ));
            }
            collected = collected + take;
            i += 1;
        }
        self.bytes_read = self.bytes_read + total;
        proof {
            if total > 0 {
                assert(512 * i - 512 - skip < total <= 512 * i - skip);
                assert(i as int == (skip + total + 511) / 512);
                assert(sample_vec@ == gathered_bytes(d, b0, skip as int, total as int));
            } else {
                assert(sample_vec@ =~= Seq::<u8>::empty());
                assert(sample_vec@ == gathered_bytes(d, b0, skip as int, total as int));
            }
        }

        // Decode: concatenate each sample's bytes little-endian and shift
        // the most significant sample bit up to the sign bit.
        let bpc: usize = self.bytes_per_channel as usize;
        let shift: u32 = 32 - (self.bits_per_sample as u32);
        let n_bytes: usize = sample_vec.len();
        let n_samples: usize = n_bytes / bpc;
        let mut k: usize = 0;
        while k < n_samples
            invariant
                1 <= bpc <= 4,
                shift < 32,
                self.bits_per_sample <= 32,
                shift as int == 32 - self.bits_per_sample as int,
                bpc == self.bytes_per_channel as usize,
                n_bytes == sample_vec@.len(),
                n_samples == n_bytes as int / bpc as int,
                k <= n_samples,
                out@.len() == k,
                forall|m: int| 0 <= m < k ==> #[trigger] out@[m] as int == sample_at(
                    sample_vec@,
                    m,
                    bpc as int,
                    shift,
                ),
            decreases n_samples - k,
        {
            proof {
                assert(k * bpc + bpc <= n_bytes) by (nonlinear_arith)
                    requires
                        k < n_samples,
                        n_samples == n_bytes as int / bpc as int,
                        1 <= bpc,
                ;
            }
            let base: usize = k * bpc;
            let mut val: u32 = sample_vec[base] as u32;
            if bpc >= 2 {
                val = val + (sample_vec[base + 1] as u32) * 256;
            }
            if bpc >= 3 {
                val = val + (sample_vec[base + 2] as u32) * 65536;
            }
            if bpc >= 4 {
                val = val + (sample_vec[base + 3] as u32) * 16777216;
            }
            proof {
                let chunk = sample_vec@.subrange(base as int, base + bpc as int);
                lemma_le_val4(chunk);
                assert(chunk.len() == bpc);
                assert(forall|q: int| 0 <= q < bpc ==> chunk[q] == sample_vec@[base + q]);
                assert(val == le_val(chunk));
            }
            let shifted: u32 = val << shift;
            let sample = convert_to_signed(shifted);
            proof {
                assert(sample as int == sample_at(sample_vec@, k as int, bpc as int, shift));
            }
            out.push(sample);
            k += 1;
        }
        Ok(())
    }
}

} // verus!
