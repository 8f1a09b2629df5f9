//! The double-buffered streaming arena.
//!
//! Two fixed slots cycle through `Empty -> Filling -> Filled -> Playing ->
//! Empty`. The producer (polling context) claims an `Empty` slot, fills it
//! with packed samples, and publishes it as `Filled`; the consumer (the
//! output-completion callback) promotes a `Filled` slot to `Playing` and
//! retires the previously playing slot to `Empty` in the same invocation.
//! When no slot is `Filled` (underrun) the consumer selects nothing and the
//! caller substitutes an all-zero silence block, leaving both states alone.
//!
//! Every transition below preserves the arena's central invariant: at most
//! one slot is `Playing` at any instant.

use vstd::bytes::spec_u16_from_le_bytes;
use vstd::prelude::*;

use crate::bytes::le_u16_at;
use crate::BLOCK_SIZE;

verus! {

/// Number of 16-bit samples packed out of one storage block.
pub const SAMPLES_PER_BLOCK: usize = BLOCK_SIZE / 2;

/// Lifecycle state of one buffer slot.
#[derive(PartialEq, Eq, Structural, Debug, Clone, Copy)]
pub enum AudioBufState {
    Filling,
    Filled,
    Playing,
    Empty,
}

/// The state table of the two-slot arena.
#[derive(Debug)]
pub struct DbufInfo {
    pub buf_states: [AudioBufState; 2],
}

/// At most one slot is `Playing`.
pub open spec fn single_playing(s: DbufInfo) -> bool {
    !(s.buf_states[0] == AudioBufState::Playing && s.buf_states[1] == AudioBufState::Playing)
}

impl DbufInfo {
    /// The startup condition: slot 0 is assumed primed and already playing,
    /// slot 1 waits for the producer.
    pub fn new() -> (r: DbufInfo)
        ensures
            r.buf_states[0] == AudioBufState::Playing,
            r.buf_states[1] == AudioBufState::Empty,
            single_playing(r),
    {
        DbufInfo { buf_states: [AudioBufState::Playing, AudioBufState::Empty] }
    }

    /// Finds the lowest-indexed slot whose state is `match_state`.
    pub fn find_buffer(&self, match_state: AudioBufState) -> (r: Option<usize>)
        ensures
            (r matches Some(i) ==> i < 2 && self.buf_states[i as int] == match_state && forall|
                j: int,
            |
                0 <= j < i ==> self.buf_states[j] != match_state),
            r is None ==> forall|j: int| 0 <= j < 2 ==> self.buf_states[j] != match_state,
    {
        if self.buf_states[0] == match_state {
            Some(0)
        } else if self.buf_states[1] == match_state {
            Some(1)
        } else {
            None
        }
    }

    /// Producer step: claim the first `Empty` slot by marking it `Filling`.
    /// Returns the claimed index, or `None` (leaving the table unchanged)
    /// when no slot is idle. A claim never creates a `Playing` slot, so the
    /// single-`Playing` invariant is preserved.
    pub fn producer_claim(&mut self) -> (r: Option<usize>)
        ensures
            (r matches Some(i) ==> i < 2 && old(self).buf_states[i as int]
                == AudioBufState::Empty && final(self).buf_states[i as int]
                == AudioBufState::Filling && forall|j: int|
                0 <= j < 2 && j != i ==> final(self).buf_states[j] == old(self).buf_states[j]),
            r is None ==> *final(self) == *old(self) && forall|j: int|
                0 <= j < 2 ==> old(self).buf_states[j] != AudioBufState::Empty,
            single_playing(*old(self)) ==> single_playing(*final(self)),
    {
        let found = self.find_buffer(AudioBufState::Empty);
        match found {
            Some(i) => {
                self.buf_states[i] = AudioBufState::Filling;
                Some(i)
            },
            None => None,
        }
    }

    /// Producer step: publish a finished fill, moving the slot it had claimed
    /// from `Filling` to `Filled`. Never creates a `Playing` slot, so the
    /// single-`Playing` invariant is preserved.
    pub fn producer_publish(&mut self, i: usize)
        requires
            i < 2,
            old(self).buf_states[i as int] == AudioBufState::Filling,
        ensures
            final(self).buf_states[i as int] == AudioBufState::Filled,
            forall|j: int|
                0 <= j < 2 && j != i ==> final(self).buf_states[j] == old(self).buf_states[j],
            single_playing(*old(self)) ==> single_playing(*final(self)),
    {
        self.buf_states[i] = AudioBufState::Filled;
    }

    /// Consumer step, run once per completed transfer half: select the first
    /// `Filled` slot, make it the next transfer target (`Playing`), and
    /// retire the complementary slot to `Empty` in the same invocation.
    ///
    /// On underrun (no `Filled` slot) it returns `None` and leaves both
    /// states unchanged; the caller must then hand the silence block to the
    /// output transport. After a successful advance exactly one slot is
    /// `Playing`, so the single-`Playing` invariant holds unconditionally.
    pub fn consumer_advance(&mut self) -> (r: Option<usize>)
        ensures
            (r matches Some(i) ==> i < 2 && old(self).buf_states[i as int]
                == AudioBufState::Filled && (forall|j: int|
                0 <= j < i ==> old(self).buf_states[j] != AudioBufState::Filled)
                && final(self).buf_states[i as int] == AudioBufState::Playing
                && final(self).buf_states[1 - i as int] == AudioBufState::Empty
                && single_playing(*final(self))),
            r is None ==> *final(self) == *old(self) && forall|j: int|
                0 <= j < 2 ==> old(self).buf_states[j] != AudioBufState::Filled,
            single_playing(*old(self)) ==> single_playing(*final(self)),
    {
        let found = self.find_buffer(AudioBufState::Filled);
        match found {
            Some(i) => {
                self.buf_states[i] = AudioBufState::Playing;
                self.buf_states[1 - i] = AudioBufState::Empty;
                Some(i)
            },
            None => None,
        }
    }
}

/// Packs one raw storage block into native 16-bit sample words: sample `j`
/// is the little-endian pair at bytes `2 * j` and `2 * j + 1`.
pub fn pack_block(bytes: &[u8; BLOCK_SIZE]) -> (r: Vec<u16>)
    ensures
        r@.len() == SAMPLES_PER_BLOCK,
        forall|j: int|
            0 <= j < SAMPLES_PER_BLOCK ==> r@[j] == spec_u16_from_le_bytes(
                #[trigger] bytes@.subrange(2 * j, 2 * j + 2),
            ),
{
    let mut out: Vec<u16> = Vec::new();
    let mut j: usize = 0;
    while j < SAMPLES_PER_BLOCK
        invariant
            j <= SAMPLES_PER_BLOCK,
            out@.len() == j,
            forall|k: int|
                0 <= k < j ==> out@[k] == spec_u16_from_le_bytes(
                    #[trigger] bytes@.subrange(2 * k, 2 * k + 2),
                ),
        decreases SAMPLES_PER_BLOCK - j,
    {
        let sample = le_u16_at(bytes.as_slice(), 2 * j);
        out.push(sample);
        j += 1;
    }
    out
}

/// An all-zero block of samples, handed to the output transport on underrun
/// so the peripheral always has a valid next buffer and never replays stale
/// audio.
pub fn silence_block() -> (r: Vec<u16>)
    ensures
        r@.len() == SAMPLES_PER_BLOCK,
        forall|j: int| 0 <= j < SAMPLES_PER_BLOCK ==> r@[j] == 0u16,
{
    let mut out: Vec<u16> = Vec::new();
    let mut j: usize = 0;
    while j < SAMPLES_PER_BLOCK
        invariant
            j <= SAMPLES_PER_BLOCK,
            out@.len() == j,
            forall|k: int| 0 <= k < j ==> out@[k] == 0u16,
        decreases SAMPLES_PER_BLOCK - j,
    {
        out.push(0u16);
        j += 1;
    }
    out
}

} // verus!
