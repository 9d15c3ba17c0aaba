use vstd::prelude::*;

use super::{FrameNumber, InputBuffer, MAX_INPUT_BYTES, NULL_FRAME};

verus! {

/// A state and an input that belong to the same frame.
#[derive(Debug, Clone)]
pub struct FrameInfo {
    pub frame: FrameNumber,
    pub state: GameState,
    pub input: GameInput,
}

/// A serialized game state of a single frame.
#[derive(Debug, Default, Clone)]
pub struct GameState {
    /// The frame to which this state belongs.
    pub frame: FrameNumber,
    /// The serialized game state.
    pub buffer: Vec<u8>,
    /// The checksum of the game state.
    pub checksum: Option<u32>,
}

impl GameState {
    /// An empty state that belongs to no frame.
    pub fn new() -> (r: GameState)
        ensures
            r.frame == NULL_FRAME,
            r.buffer@.len() == 0,
            r.checksum is None,
    {
        GameState { frame: NULL_FRAME, buffer: Vec::new(), checksum: None }
    }
}

/// The input of a single player in a single frame: the first `size` bytes of `bits`.
#[derive(Debug, Default, Copy, Clone)]
pub struct GameInput {
    /// The frame to which this input belongs. -1 represents an invalid frame.
    pub frame: FrameNumber,
    /// The input size per player.
    pub size: usize,
    /// The game input for a player in a single frame.
    pub bits: InputBuffer,
}

impl GameInput {
    /// An input for `frame` of the given `size`, copying `bits` when given and zero-filled
    /// otherwise.
    pub fn new(frame: FrameNumber, bits: Option<&InputBuffer>, size: usize) -> (r: GameInput)
        requires
            size <= MAX_INPUT_BYTES,
        ensures
            r.frame == frame,
            r.size == size,
            match bits {
                Some(b) => r.bits@ == b@,
                None => forall|i: int| 0 <= i < 8 ==> r.bits[i] == 0,
            },
    {
        match bits {
            Some(i_bits) => GameInput { frame, size, bits: *i_bits },
            None => GameInput { frame, size, bits: [0u8; 8] },
        }
    }

    /// Copies `bits` into the first `size` bytes.
    pub fn add_input(&mut self, bits: &[u8])
        requires
            bits@.len() <= MAX_INPUT_BYTES,
            bits@.len() == old(self).size,
        ensures
            final(self).frame == old(self).frame,
            final(self).size == old(self).size,
            final(self).bits@ == bits@ + old(self).bits@.subrange(old(self).size as int, 8),
    {
        let mut i: usize = 0;
        while i < self.size
            invariant
                self.size == old(self).size,
                self.frame == old(self).frame,
                self.size <= 8,
                bits@.len() == self.size,
                i <= self.size,
                forall|j: int| 0 <= j < i ==> self.bits[j] == bits@[j],
                forall|j: int| i <= j < 8 ==> self.bits[j] == old(self).bits[j],
            decreases self.size - i,
        {
            self.bits[i] = bits[i];
            i = i + 1;
        }
        assert(self.bits@ =~= bits@ + old(self).bits@.subrange(old(self).size as int, 8));
    }

    /// Sets every byte to zero.
    pub fn erase_bits(&mut self)
        ensures
            final(self).frame == old(self).frame,
            final(self).size == old(self).size,
            forall|i: int| 0 <= i < 8 ==> final(self).bits[i] == 0,
    {
        let mut i: usize = 0;
        while i < 8
            invariant
                self.size == old(self).size,
                self.frame == old(self).frame,
                i <= 8,
                forall|j: int| 0 <= j < i ==> self.bits[j] == 0,
            decreases 8 - i,
        {
            self.bits[i] = 0;
            i = i + 1;
        }
    }

    /// Whether two inputs agree: sizes and bytes, and frames too unless `bitsonly` is set.
    pub fn equal(&self, other: &GameInput, bitsonly: bool) -> (r: bool)
        ensures
            r == ((bitsonly || self.frame == other.frame) && self.size == other.size && self.bits@
                == other.bits@),
    {
        if !bitsonly && self.frame != other.frame {
            return false;
        }
        if self.size != other.size {
            return false;
        }
        let mut i: usize = 0;
        while i < 8
            invariant
                i <= 8,
                forall|j: int| 0 <= j < i ==> self.bits[j] == other.bits[j],
            decreases 8 - i,
        {
            if self.bits[i] != other.bits[i] {
                return false;
            }
            i = i + 1;
        }
        assert(self.bits@ =~= other.bits@);
        true
    }
}

} // verus!
