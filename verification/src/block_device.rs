//! Interface to block-addressed storage, plus an in-memory device.
//!
//! The filesystem and container readers are generic over [`BlockDevice`], so
//! the same verified logic runs against a hardware driver (supplied by the
//! application) or against [`MemBlockDevice`] for host-side runs and tests.

use vstd::prelude::*;

use crate::BLOCK_SIZE;

verus! {

/// A device that serves fixed-size blocks by absolute address.
///
/// `block_at` is the abstract content of the device: the byte sequence a
/// successful read of that address returns. A read may fail at any time
/// (hardware is free to err), but it never changes the device's content and
/// never returns bytes other than `block_at` of the requested address.
pub trait BlockDevice: Sized {
    /// The bytes stored at block address `addr`.
    spec fn block_at(&self, addr: u32) -> Seq<u8>;

    /// Reads block `blockaddr` into `block`.
    fn read_to_block(&mut self, blockaddr: u32, block: &mut [u8; BLOCK_SIZE]) -> (r: Result<
        (),
        (),
    >)
        ensures
            forall|a: u32| #[trigger] final(self).block_at(a) == old(self).block_at(a),
            r is Ok ==> final(block)@ == old(self).block_at(blockaddr),
    ;

    /// Reads block `blockaddr` and returns it by value.
    fn read_block(&mut self, blockaddr: u32) -> (r: Result<[u8; BLOCK_SIZE], ()>)
        ensures
            forall|a: u32| #[trigger] final(self).block_at(a) == old(self).block_at(a),
            r is Ok ==> r->Ok_0@ == old(self).block_at(blockaddr),
    {
        let mut block = [0u8; BLOCK_SIZE];
        let result = self.read_to_block(blockaddr, &mut block);
        match result {
            Ok(()) => Ok(block),
            Err(()) => Err(()),
        }
    }
}

/// A deterministic in-memory block device: block `a` holds `blocks[a]`, and a
/// read succeeds exactly when `a` is within the stored range.
pub struct MemBlockDevice {
    pub blocks: Vec<[u8; BLOCK_SIZE]>,
}

impl MemBlockDevice {
    /// Wraps a vector of blocks as a device.
    pub fn new(blocks: Vec<[u8; BLOCK_SIZE]>) -> (r: MemBlockDevice)
        ensures
            r.blocks == blocks,
    {
        MemBlockDevice { blocks }
    }
}

impl BlockDevice for MemBlockDevice {
    open spec fn block_at(&self, addr: u32) -> Seq<u8> {
        if addr < self.blocks@.len() {
            self.blocks@[addr as int]@
        } else {
            Seq::empty()
        }
    }

    fn read_to_block(&mut self, blockaddr: u32, block: &mut [u8; BLOCK_SIZE]) -> (r: Result<
        (),
        (),
    >)
        ensures
            *final(self) == *old(self),
            r is Ok <==> blockaddr < old(self).blocks@.len(),
            r is Ok ==> final(block)@ == old(self).blocks@[blockaddr as int]@,
    {
        if (blockaddr as usize) < self.blocks.len() {
            *block = self.blocks[blockaddr as usize];
            Ok(())
        } else {
            Err(())
        }
    }
}

} // verus!
