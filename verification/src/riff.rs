//! Sequential chunk walking for RIFF-family container files.
//!
//! A chunk header is a 4-character identifier followed by a 4-byte
//! little-endian length. The walk advances by a header-kind-dependent rule:
//! a container header ("RIFF" or a nested "LIST") advances by 8 bytes, since
//! its stated length covers nested sub-chunks that are walked individually;
//! the bare "WAVE" form tag advances by 4 bytes (it has no length field);
//! every ordinary leaf chunk advances by 8 bytes plus its declared length.
//! A header that straddles a block boundary is not supported: the walk
//! assumes each header's 8 bytes lie within one block, and fails otherwise.

use vstd::bytes::spec_u32_from_le_bytes;
use vstd::prelude::*;

use crate::block_device::BlockDevice;
use crate::bytes::le_u32_at;
use crate::BLOCK_SIZE;

verus! {

/// The outer container tag.
pub open spec fn riff_tag() -> Seq<u8> {
    seq![0x52u8, 0x49u8, 0x46u8, 0x46u8]
}

/// The nested container tag.
pub open spec fn list_tag() -> Seq<u8> {
    seq![0x4cu8, 0x49u8, 0x53u8, 0x54u8]
}

/// The bare form-type tag that follows the outer header.
pub open spec fn wave_tag() -> Seq<u8> {
    seq![0x57u8, 0x41u8, 0x56u8, 0x45u8]
}

/// One chunk header, as needed to read chunks sequentially.
///
/// Byte addresses count from the first block of the file, so a chunk that
/// starts at byte 16 of the file's second block has address 512 + 16.
#[derive(Debug, Clone, Copy)]
pub struct ChunkInfo {
    /// 4-character chunk identifier.
    pub identifier: [u8; 4],
    /// Declared length of the chunk in bytes.
    pub length: u32,
    /// Byte address of this chunk.
    pub chunk_start: u64,
    /// Byte address of the next chunk.
    pub next_chunk: u64,
}

/// Mathematical model of a [`ChunkInfo`].
#[verifier::ext_equal]
pub struct ChunkSpec {
    pub id: Seq<u8>,
    pub length: u32,
    pub chunk_start: u64,
    pub next_chunk: u64,
}

impl View for ChunkInfo {
    type V = ChunkSpec;

    open spec fn view(&self) -> ChunkSpec {
        ChunkSpec {
            id: self.identifier@,
            length: self.length,
            chunk_start: self.chunk_start,
            next_chunk: self.next_chunk,
        }
    }
}

/// Where the walk stands after the chunk whose header is `id` and whose
/// declared length is `length`, starting at byte address `start`.
pub open spec fn chunk_advance(id: Seq<u8>, start: u64, length: u32) -> int {
    if id == riff_tag() || id == list_tag() {
        start + 8
    } else if id == wave_tag() {
        start + 4
    } else {
        start + 8 + length
    }
}

/// The chunk whose header stands at byte address `nc` of the file starting
/// at block `start_block_address` of device `d`; `None` when the header
/// would straddle a block boundary or an address cannot be represented.
pub open spec fn spec_next_chunk<T: BlockDevice>(
    d: T,
    start_block_address: u32,
    nc: u64,
) -> Option<ChunkSpec> {
    let offset_blocks = nc / (BLOCK_SIZE as u64);
    let pos = (nc % (BLOCK_SIZE as u64)) as int;
    if start_block_address + offset_blocks > u32::MAX {
        None
    } else {
        let blk = d.block_at((start_block_address + offset_blocks) as u32);
        if pos + 8 > BLOCK_SIZE {
            None
        } else {
            let id = blk.subrange(pos, pos + 4);
            let length = spec_u32_from_le_bytes(blk.subrange(pos + 4, pos + 8));
            let next = chunk_advance(id, nc, length);
            if next > u64::MAX {
                None
            } else {
                Some(ChunkSpec { id, length, chunk_start: nc, next_chunk: next as u64 })
            }
        }
    }
}

/// Compares a chunk identifier against a 4-byte tag.
pub(crate) fn tag_eq(id: &[u8; 4], t: &[u8; 4]) -> (r: bool)
    ensures
        r <==> id@ == t@,
{
    let r = id[0] == t[0] && id[1] == t[1] && id[2] == t[2] && id[3] == t[3];
    proof {
        if r {
            assert(id@ =~= t@);
        } else {
            assert(id@ != t@) by {
                if id@ == t@ {
                    assert(forall|i: int| 0 <= i < 4 ==> id@[i] == #[trigger] t@[i]);
                }
            }
        }
    }
    r
}

impl ChunkInfo {
    /// Reads the chunk header that follows this chunk.
    ///
    /// Fails when the device read fails, when the header's 8 bytes would
    /// straddle a block boundary (a documented limitation of this walker),
    /// or when an address cannot be represented.
    pub fn get_next_chunk<T: BlockDevice>(
        &self,
        block_device: &mut T,
        start_block_address: u32,
    ) -> (r: Result<ChunkInfo, ()>)
        ensures
            forall|a: u32| #[trigger]
                final(block_device).block_at(a) == old(block_device).block_at(a),
            r matches Ok(c) ==> spec_next_chunk(
                *old(block_device),
                start_block_address,
                self.next_chunk,
            ) == Some(c@),
            spec_next_chunk(*old(block_device), start_block_address, self.next_chunk) is None
                ==> r is Err,
    {
        let offset_blocks: u64 = self.next_chunk / (BLOCK_SIZE as u64);
        if offset_blocks > ((u32::MAX - start_block_address) as u64) {
            return Err(());
        }
        let relevant_block_addr: u32 = start_block_address + (offset_blocks as u32);
        let pos: usize = (self.next_chunk % (BLOCK_SIZE as u64)) as usize;
        if pos + 8 > BLOCK_SIZE {
            // The header would straddle the boundary into the next block.
            return Err(());
        }
        let relevant_block = match block_device.read_block(relevant_block_addr) {
            Ok(b) => b,
            Err(()) => { return Err(()) },
        };
        let identifier: [u8; 4] = [
            relevant_block[pos],
            relevant_block[pos + 1],
            relevant_block[pos + 2],
            relevant_block[pos + 3],
        ];
        let length = le_u32_at(relevant_block.as_slice(), pos + 4);
        proof {
            assert(identifier@ =~= relevant_block@.subrange(pos as int, pos as int + 4));
        }
        let riff: [u8; 4] = [0x52, 0x49, 0x46, 0x46];
        let list: [u8; 4] = [0x4c, 0x49, 0x53, 0x54];
        let wave: [u8; 4] = [0x57, 0x41, 0x56, 0x45];
        proof {
            assert(riff@ =~= riff_tag());
            assert(list@ =~= list_tag());
            assert(wave@ =~= wave_tag());
        }
        let new_next_chunk: u64;
        if tag_eq(&identifier, &riff) || tag_eq(&identifier, &list) {
            if self.next_chunk > u64::MAX - 8 {
                return Err(());
            }
            new_next_chunk = self.next_chunk + 8;
        } else if tag_eq(&identifier, &wave) {
            if self.next_chunk > u64::MAX - 4 {
                return Err(());
            }
            new_next_chunk = self.next_chunk + 4;
        } else {
            let skip: u64 = 8u64 + (length as u64);
            if self.next_chunk > u64::MAX - skip {
                return Err(());
            }
            new_next_chunk = self.next_chunk + skip;
        }
        Ok(
            ChunkInfo {
                identifier,
                length,
                chunk_start: self.next_chunk,
                next_chunk: new_next_chunk,
            },
        )
    }
}

/// Reads the first chunk header of the file starting at
/// `start_block_address`.
pub fn get_first_chunk<T: BlockDevice>(start_block_address: u32, block_device: &mut T) -> (r:
    Result<ChunkInfo, ()>)
    ensures
        forall|a: u32| #[trigger]
            final(block_device).block_at(a) == old(block_device).block_at(a),
        r matches Ok(c) ==> spec_next_chunk(*old(block_device), start_block_address, 0) == Some(
            c@,
        ),
        spec_next_chunk(*old(block_device), start_block_address, 0) is None ==> r is Err,
{
    let start_chunk = ChunkInfo { identifier: [0; 4], length: 0, chunk_start: 0, next_chunk: 0 };
    start_chunk.get_next_chunk(block_device, start_block_address)
}

} // verus!
