//! A verified core for a gapless audio player that reads WAV files from an
//! exFAT-formatted block device and streams samples through a double-buffered
//! arena.
//!
//! The crate is organised around three engines:
//! - `exfat`: boot-sector search, volume geometry, and directory enumeration;
//! - `riff` and `wav`: chunk walking, format parsing, and sequential sample
//!   reads;
//! - `audio_buffer`: the two-slot producer/consumer state machine that keeps
//!   the output peripheral fed.
//!
//! Storage access goes through the `block_device::BlockDevice` trait; a caller
//! supplies the physical device and drives the producer loop and the
//! completion callback.

use vstd::prelude::*;

pub mod audio_buffer;
pub mod binary_helpers;
pub mod block_device;
pub mod bytes;
pub mod exfat;
pub mod riff;
pub mod wav;

verus! {

/// Size in bytes of one storage block; it is also used as the exFAT sector
/// size, so the volume must be formatted with 512-byte sectors.
pub const BLOCK_SIZE: usize = 512;

} // verus!
